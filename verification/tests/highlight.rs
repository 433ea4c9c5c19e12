use repomonk::ui::highlight::highlight_chars;

const FG: (u8, u8, u8) = (0xc0, 0xca, 0xf5);
const BLUE: (u8, u8, u8) = (0x7a, 0xa2, 0xf7);
const GREEN: (u8, u8, u8) = (0x9e, 0xce, 0x6a);
const MAGENTA: (u8, u8, u8) = (0xbb, 0x9a, 0xf7);
const MUTED: (u8, u8, u8) = (0x56, 0x5f, 0x89);

#[test]
fn highlights_rust_keywords_and_functions_differently() {
    let source = "fn main() {\n    let answer = \"ok\";\n}\n";
    let colors = highlight_chars("src/main.rs", source);
    assert_eq!(colors.len(), source.chars().count());
    assert_eq!(colors[0], MAGENTA);
    assert_eq!(colors[3], BLUE);
    let string_index = source.chars().position(|ch| ch == '"').unwrap();
    assert_eq!(colors[string_index], GREEN);
}

#[test]
fn comments_use_muted_color() {
    let source = "// keep this local\n";
    let colors = highlight_chars("main.rs", source);
    assert!(colors.iter().all(|color| *color == MUTED));
}

#[test]
fn highlights_typescript_tokens() {
    let source = "const answer = \"ok\";\n";
    let colors = highlight_chars("src/main.ts", source);
    assert_eq!(colors[0], MAGENTA);
    let string_index = source.chars().position(|ch| ch == '"').unwrap();
    assert_eq!(colors[string_index], GREEN);
}

#[test]
fn unsupported_extensions_fall_back_to_foreground() {
    let source = "fn main() {}";
    let colors = highlight_chars("README.unknown", source);
    assert_eq!(colors, vec![FG; source.chars().count()]);
}

#[test]
fn unicode_alignment_is_by_character() {
    let source = "let greeting = \"日本語\";\n";
    let colors = highlight_chars("main.rs", source);
    assert_eq!(colors.len(), source.chars().count());
    assert_eq!(colors[source.chars().position(|ch| ch == '日').unwrap()], GREEN);
}
