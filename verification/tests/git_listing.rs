use package_check::api::parse_diff_tree_paths;

#[test]
fn touched_filed() {
    let output = r#"packages/preview/scholarly-tauthesis/0.8.0/.gitattributes
packages/preview/scholarly-tauthesis/0.8.0/.gitignore
packages/preview/scholarly-tauthesis/0.8.0/LICENSE
packages/preview/scholarly-tauthesis/0.8.0/README.md
packages/preview/scholarly-tauthesis/0.8.0/tauthesis.typ
packages/preview/scholarly-tauthesis/0.8.0/template/bibliography.bib
packages/preview/scholarly-tauthesis/0.8.0/template/code/README.md
packages/preview/scholarly-tauthesis/0.8.0/template/code/square.jl
packages/preview/scholarly-tauthesis/0.8.0/template/content/01.typ
packages/preview/scholarly-tauthesis/0.8.0/template/content/02.typ
packages/preview/scholarly-tauthesis/0.8.0/template/content/03.typ
packages/preview/scholarly-tauthesis/0.8.0/template/content/04.typ
packages/preview/scholarly-tauthesis/0.8.0/template/content/A.typ
packages/preview/scholarly-tauthesis/0.8.0/template/content/README.md
packages/preview/scholarly-tauthesis/0.8.0/template/content/abstract.typ
packages/preview/scholarly-tauthesis/0.8.0/template/content/glossary.typ
packages/preview/scholarly-tauthesis/0.8.0/template/content/preface.typ
packages/preview/scholarly-tauthesis/0.8.0/template/content/tekoalyn-kaytto.typ
"packages/preview/scholarly-tauthesis/0.8.0/template/content/tiivistelm\303\244.typ"
packages/preview/scholarly-tauthesis/0.8.0/template/content/use-of-ai.typ
packages/preview/scholarly-tauthesis/0.8.0/template/images/README.md
packages/preview/scholarly-tauthesis/0.8.0/template/images/tau-logo-fin-eng.svg
packages/preview/scholarly-tauthesis/0.8.0/template/main.typ
packages/preview/scholarly-tauthesis/0.8.0/template/meta.typ
packages/preview/scholarly-tauthesis/0.8.0/template/preamble.typ
packages/preview/scholarly-tauthesis/0.8.0/thumbnail.png
packages/preview/scholarly-tauthesis/0.8.0/typst.toml"#;
    assert_eq!(
        parse_diff_tree_paths(output),
        [
            "packages/preview/scholarly-tauthesis/0.8.0/.gitattributes",
            "packages/preview/scholarly-tauthesis/0.8.0/.gitignore",
            "packages/preview/scholarly-tauthesis/0.8.0/LICENSE",
            "packages/preview/scholarly-tauthesis/0.8.0/README.md",
            "packages/preview/scholarly-tauthesis/0.8.0/tauthesis.typ",
            "packages/preview/scholarly-tauthesis/0.8.0/template/bibliography.bib",
            "packages/preview/scholarly-tauthesis/0.8.0/template/code/README.md",
            "packages/preview/scholarly-tauthesis/0.8.0/template/code/square.jl",
            "packages/preview/scholarly-tauthesis/0.8.0/template/content/01.typ",
            "packages/preview/scholarly-tauthesis/0.8.0/template/content/02.typ",
            "packages/preview/scholarly-tauthesis/0.8.0/template/content/03.typ",
            "packages/preview/scholarly-tauthesis/0.8.0/template/content/04.typ",
            "packages/preview/scholarly-tauthesis/0.8.0/template/content/A.typ",
            "packages/preview/scholarly-tauthesis/0.8.0/template/content/README.md",
            "packages/preview/scholarly-tauthesis/0.8.0/template/content/abstract.typ",
            "packages/preview/scholarly-tauthesis/0.8.0/template/content/glossary.typ",
            "packages/preview/scholarly-tauthesis/0.8.0/template/content/preface.typ",
            "packages/preview/scholarly-tauthesis/0.8.0/template/content/tekoalyn-kaytto.typ",
            "packages/preview/scholarly-tauthesis/0.8.0/template/content/tiivistelmä.ty",
            "packages/preview/scholarly-tauthesis/0.8.0/template/content/use-of-ai.typ",
            "packages/preview/scholarly-tauthesis/0.8.0/template/images/README.md",
            "packages/preview/scholarly-tauthesis/0.8.0/template/images/tau-logo-fin-eng.svg",
            "packages/preview/scholarly-tauthesis/0.8.0/template/main.typ",
            "packages/preview/scholarly-tauthesis/0.8.0/template/meta.typ",
            "packages/preview/scholarly-tauthesis/0.8.0/template/preamble.typ",
            "packages/preview/scholarly-tauthesis/0.8.0/thumbnail.png",
            "packages/preview/scholarly-tauthesis/0.8.0/typst.toml"
        ]
        .iter()
        .map(|s| s.to_string())
        .collect::<Vec<_>>()
    )
}

#[test]
fn quoted_line_decodes_octal_escapes() {
    // The escape \303\244 denotes the UTF-8 encoding of an a-umlaut; the
    // quoted form drops the character before the closing quote.
    let parsed = parse_diff_tree_paths("\"a\\303\\244bX\"");
    assert_eq!(parsed, vec!["aäb".to_string()]);
}

#[test]
fn unquoted_lines_pass_through() {
    let parsed = parse_diff_tree_paths("a/b.typ\nc d/e.typ");
    assert_eq!(parsed, vec!["a/b.typ".to_string(), "c d/e.typ".to_string()]);
}
