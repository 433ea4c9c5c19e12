use repomonk::domain::content::{Chunk, FileStatus, ScannedFile, SkipReason};
use repomonk::scan::deps;
use repomonk::scan::deps::{js_ts, python, rust};
use repomonk::scan::extract::{extract_chunks, hash_normalized, normalize, ExtractOptions};
use repomonk::scan::label::{label_lines, regex_fallback, LineLabel};
use repomonk::scan::language::SourceLanguage;
use repomonk::scan::manifest::{cargo_hints, package_json_hints, read_entry_hints};
use repomonk::scan::walk::{classify_contents, is_excluded_dir, scan_repository, skip_by_name, WalkOptions};

#[test]
fn strips_trailing_ws_and_tabs() {
    let n = normalize("a\tb  \n", 4);
    assert_eq!(n, "a   b\n");
}

#[test]
fn drops_non_ascii_lines() {
    let n = normalize("ok\n日本語\nok2", 4);
    assert_eq!(n, "ok\nok2");
}

#[test]
fn hash_is_stable_and_is_the_sha256_hex_of_the_body() {
    assert_eq!(hash_normalized("abc"), hash_normalized("abc"));
    assert_ne!(hash_normalized("abc"), hash_normalized("abd"));
    assert_eq!(
        hash_normalized("abc"),
        "ba7816bf8f01cfea414140de5dae2223b00361a396177a9cb410ff61f20015ad"
    );
}

#[test]
fn whole_file_is_one_unit_across_blank_lines() {
    let mut src = String::new();
    for i in 0..5 {
        src.push_str(&format!("a{i}\n"));
    }
    src.push('\n');
    for i in 0..5 {
        src.push_str(&format!("b{i}\n"));
    }
    let chunks = extract_chunks("f.rs", &src, ExtractOptions::default());
    assert_eq!(chunks.len(), 1);
    assert!(chunks[0].normalized.contains("a0"));
    assert!(chunks[0].normalized.contains("b4"));
}

#[test]
fn long_file_is_not_split() {
    let mut src = String::new();
    for i in 0..90 {
        src.push_str(&format!("line{i}\n"));
    }
    let chunks = extract_chunks("f.rs", &src, ExtractOptions::default());
    assert_eq!(chunks.len(), 1);
    assert_eq!(chunks[0].normalized.split('\n').count(), 91);
}

#[test]
fn tiny_file_still_one_unit() {
    let chunks = extract_chunks("f.rs", "a\nb\n", ExtractOptions::default());
    assert_eq!(chunks.len(), 1);
}

#[test]
fn hash_matches_normalized_body() {
    let chunks = extract_chunks("f.rs", "fn main() {}\n", ExtractOptions::default());
    assert_eq!(chunks.len(), 1);
    assert_eq!(chunks[0].hash, hash_normalized(&chunks[0].normalized));
}

#[test]
fn filters_imports_and_comments_before_normalizing() {
    let source = "use crate::thing;\n/// docs\n// note\nfn main() {}\n";
    let chunks = extract_chunks("f.rs", source, ExtractOptions::default());
    assert_eq!(chunks.len(), 1);
    assert_eq!(chunks[0].normalized, "/// docs\nfn main() {}\n");

    let chunks = extract_chunks(
        "f.rs",
        source,
        ExtractOptions { include_imports: true, include_comments: true, ..ExtractOptions::default() },
    );
    assert_eq!(chunks[0].normalized, source);
}

#[test]
fn all_filtered_lines_produce_no_chunk() {
    let source = "use crate::thing;\n// note\n";
    let chunks = extract_chunks("f.rs", source, ExtractOptions::default());
    assert!(chunks.is_empty());
}

#[test]
fn labels_rust_imports_and_comments() {
    let source = "use crate::thing;\n/// docs\n// note\nfn main() {}\n";
    let labels = label_lines("src/main.rs", source);
    assert_eq!(
        labels,
        vec![LineLabel::Import, LineLabel::Doc, LineLabel::Comment, LineLabel::Code, LineLabel::Code]
    );
}

#[test]
fn inline_comment_keeps_code_label() {
    let labels = label_lines("main.py", "value = 1  # comment\n");
    assert_eq!(labels[0], LineLabel::Code);
}

#[test]
fn unknown_language_uses_fallback() {
    let labels = label_lines("notes.txt", "# comment\nbody\n");
    assert_eq!(labels[0], LineLabel::Comment);
    assert_eq!(labels[1], LineLabel::Code);
}

#[test]
fn handles_multiline_comments_and_imports() {
    let source = "/** docs\n * more\n */\nimport x from \"x\";\nbody();\n";
    assert_eq!(
        regex_fallback::label_lines("unknown.txt", source),
        vec![
            LineLabel::Doc,
            LineLabel::Doc,
            LineLabel::Doc,
            LineLabel::Import,
            LineLabel::Code,
            LineLabel::Code,
        ]
    );
}

#[test]
fn detects_supported_extensions() {
    assert_eq!(SourceLanguage::from_path("src/lib.rs"), SourceLanguage::Rust);
    assert_eq!(SourceLanguage::from_path("src/component.tsx"), SourceLanguage::Tsx);
    assert_eq!(SourceLanguage::from_path("src/module.mjs"), SourceLanguage::JavaScript);
    assert_eq!(SourceLanguage::from_path("src/types.pyi"), SourceLanguage::Python);
    assert_eq!(SourceLanguage::from_path("cmd/main.go"), SourceLanguage::Go);
}

#[test]
fn unknown_extensions_use_fallback() {
    assert_eq!(SourceLanguage::from_path("README.md"), SourceLanguage::Unknown);
    assert!(!SourceLanguage::Unknown.is_tree_sitter_supported());
}

#[test]
fn extracts_relative_and_commonjs_imports() {
    let imports = js_ts::imports("import value from './value';\nexport * from \"./other\";\nconst x = require('./cjs');");
    assert_eq!(imports.iter().map(|item| item.raw.as_str()).collect::<Vec<_>>(), vec!["./value", "./other", "./cjs"]);
    assert_eq!(imports[0].bindings, vec!["value"]);
    assert!(imports[1].bindings.is_empty());
    assert_eq!(imports[2].bindings, vec!["x"]);
    assert_eq!(imports[0].line, 1);
}

#[test]
fn extracts_named_namespace_and_side_effect_bindings() {
    let imports = js_ts::imports("import { a, b as c } from './x';\nimport * as ns from './y';\nimport './z';\n");
    assert_eq!(imports[0].bindings, vec!["a", "c"]);
    assert_eq!(imports[1].bindings, vec!["ns"]);
    assert!(imports[2].bindings.is_empty());
}

#[test]
fn ignores_external_modules() {
    assert!(js_ts::candidates("src/main.ts", "react").is_empty());
    assert!(js_ts::candidates("src/main.ts", "./util").contains(&"src/util.ts".to_string()));
}

#[test]
fn extracts_python_imports() {
    let imports = python::imports("from .pkg import value\nimport os, package.mod as mod\n");
    assert_eq!(imports.iter().map(|item| item.raw.as_str()).collect::<Vec<_>>(), vec![".pkg", "os", "package.mod"]);
    assert_eq!(imports[0].bindings, vec!["value"]);
    assert_eq!(imports[1].bindings, vec!["os"]);
    assert_eq!(imports[2].bindings, vec!["mod"]);
    assert_eq!(imports[0].line, 1);
}

#[test]
fn extracts_from_import_aliases() {
    let imports = python::imports("from .x import a, b as c\n");
    assert_eq!(imports[0].raw, ".x");
    assert_eq!(imports[0].bindings, vec!["a", "c"]);
}

#[test]
fn resolves_relative_python_modules() {
    let current = python::candidates("pkg/main.py", ".util");
    assert!(current.contains(&"pkg/util.py".to_string()));
    let parent = python::candidates("pkg/sub/main.py", "..util");
    assert!(parent.contains(&"pkg/util.py".to_string()));
}

#[test]
fn extracts_rust_module_imports_in_source_order() {
    let imports = rust::imports("use crate::z::Thing;\nmod local;\nuse super::parent;\n");
    assert_eq!(
        imports.iter().map(|item| item.raw.as_str()).collect::<Vec<_>>(),
        vec!["crate::z::Thing", "self::local", "super::parent"]
    );
    assert_eq!(imports[0].bindings, vec!["Thing"]);
    assert_eq!(imports[1].bindings, vec!["local"]);
    assert_eq!(imports[0].line, 1);
    assert_eq!(imports[1].line, 2);
}

#[test]
fn extracts_grouped_and_aliased_bindings() {
    let imports = rust::imports("use a::b::{C, D as E};\nuse a::b as alias;\n");
    assert_eq!(imports[0].raw, "a::b");
    assert_eq!(imports[0].bindings, vec!["C", "E"]);
    assert_eq!(imports[1].raw, "a::b");
    assert_eq!(imports[1].bindings, vec!["alias"]);
}

#[test]
fn resolves_crate_and_relative_modules() {
    let crate_candidates = rust::candidates("src/main.rs", "crate::util");
    assert!(crate_candidates.contains(&"src/util.rs".to_string()));
    let relative = rust::candidates("src/bin/main.rs", "super::lib");
    assert!(relative.contains(&"src/lib.rs".to_string()));
}

fn scanned(path: &str, body: &str) -> ScannedFile {
    ScannedFile {
        relative_path: path.into(),
        status: FileStatus::Todo,
        skip_reason: None,
        chunks: vec![Chunk {
            relative_path: path.into(),
            start_line: 1,
            end_line: 1,
            normalized: body.into(),
            hash: hash_normalized(body),
        }],
    }
}

#[test]
fn edges_resolve_only_to_typeable_files_and_are_unique() {
    let files = vec![
        scanned("src/main.rs", "x"),
        scanned("src/util.rs", "y"),
        ScannedFile {
            relative_path: "src/gen.rs".into(),
            status: FileStatus::Skipped,
            skip_reason: Some(SkipReason::GeneratedOrLockFile),
            chunks: vec![],
        },
    ];
    let sources = vec![
        Some("mod util;\nmod gen;\nmod util;\nfn main() { util::run(); }\n".to_string()),
        Some("pub fn run() {}\n".to_string()),
        None,
    ];
    let edges = deps::edges_from_sources(&files, &sources);
    assert_eq!(edges.len(), 1);
    assert_eq!(edges[0].importer, "src/main.rs");
    assert_eq!(edges[0].imported, "src/util.rs");
    assert_eq!(edges[0].decl_line, 1);
    assert_eq!(edges[0].first_use_line, Some(4));
    assert_eq!(deps::typeable_paths(&files), vec!["src/main.rs".to_string(), "src/util.rs".to_string()]);
}

#[test]
fn resolve_import_picks_the_first_typeable_candidate() {
    let typeable = vec!["src/util/mod.rs".to_string(), "src/main.rs".to_string()];
    assert_eq!(
        deps::resolve_import("src/main.rs", SourceLanguage::Rust, "crate::util", &typeable),
        Some("src/util/mod.rs".to_string())
    );
    assert_eq!(deps::resolve_import("src/main.rs", SourceLanguage::Rust, "std::fmt", &typeable), None);
}

#[test]
fn manifest_hints_follow_cargo_then_package_json() {
    let cargo = cargo_hints(&[Some("src\\bin\\tool.rs".to_string()), None, Some("src/main.rs".to_string())]);
    assert_eq!(cargo.len(), 2);
    assert_eq!(cargo[0].path, "src/main.rs");
    assert_eq!(cargo[0].reason, "bin (Cargo.toml)");
    assert_eq!(cargo[1].path, "src/bin/tool.rs");

    let pkg = package_json_hints("{ \"main\": \"./lib/index.js\", \"bin\": { \"a\": \"./bin/a.js\", \"b\": \"bin/b.js\" } }");
    assert_eq!(pkg.len(), 3);
    assert_eq!(pkg[0].path, "lib/index.js");
    assert_eq!(pkg[0].reason, "main (package.json)");
    assert_eq!(pkg[1].path, "bin/a.js");
    assert_eq!(pkg[2].path, "bin/b.js");
    assert_eq!(pkg[2].reason, "bin (package.json)");

    let single = package_json_hints("{\"bin\": \"cli.js\"}");
    assert_eq!(single.len(), 1);
    assert_eq!(single[0].path, "cli.js");

    let all = read_entry_hints(Some(vec![]), Some("{\"main\":\"index.js\"}".to_string()));
    assert_eq!(all.len(), 2);
    assert_eq!(all[0].path, "src/main.rs");
    assert_eq!(all[1].path, "index.js");
    assert!(read_entry_hints(None, None).is_empty());
}

#[test]
fn walk_rules_skip_excluded_and_generated_files() {
    let opts = WalkOptions::default();
    assert!(is_excluded_dir("node_modules"));
    assert!(is_excluded_dir(".git"));
    assert!(!is_excluded_dir("src"));
    assert_eq!(skip_by_name("Cargo.lock", "Cargo.lock", &opts), Some(SkipReason::GeneratedOrLockFile));
    assert_eq!(skip_by_name("src/main.rs", "main.rs", &opts), None);
}

#[test]
fn binary_contents_are_skipped_and_text_is_chunked() {
    let opts = WalkOptions::default();
    let binary = classify_contents("data.rs".to_string(), &[0u8, 1, 2, 3, 0, 0, 0, 0], &opts);
    assert_eq!(binary.status, FileStatus::Skipped);
    assert_eq!(binary.skip_reason, Some(SkipReason::Binary));
    let text = classify_contents("main.rs".to_string(), b"fn main() {}\n", &opts);
    assert_eq!(text.status, FileStatus::Todo);
    assert_eq!(text.chunks.len(), 1);
    assert_eq!(text.chunks[0].normalized, "fn main() {}\n");
}

#[test]
fn scan_result_is_sorted_by_path() {
    let result = scan_repository(vec![scanned("b.rs", "b"), scanned("a.rs", "a")]);
    assert_eq!(result.files[0].relative_path, "a.rs");
    assert_eq!(result.files[1].relative_path, "b.rs");
}

#[test]
fn hash_stable() {
    assert_eq!(hash_normalized("abc"), hash_normalized("abc"));
    assert_ne!(hash_normalized("abc"), hash_normalized("abd"));
}

#[test]
fn hash_carryover_when_dropped_lines_shift_numbers() {
    let body = "fn a() {}\nfn b() {}\nfn c() {}\nfn d() {}\nfn e() {}\n";
    let c1 = extract_chunks("f.rs", body, ExtractOptions::default());
    assert_eq!(c1.len(), 1);
    let shifted = format!("コメント\n別コメント\n{body}");
    let c2 = extract_chunks("f.rs", &shifted, ExtractOptions::default());
    assert_eq!(c1[0].hash, c2[0].hash);
    assert_ne!(c1[0].start_line, c2[0].start_line);
    assert_eq!(c1[0].hash, hash_normalized(&c1[0].normalized));
}
