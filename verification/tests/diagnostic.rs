use yggdrasil::bootstrap::declaration::{diagnose, scan_declarations, DeclarationKind};

const DUPLICATE1: &str = r#"
grammar! test

rule = a ~ b

fragment! test
"#;

#[test]
fn test_duplicate1() {
    let found = diagnose(DUPLICATE1);
    assert_eq!(found.len(), 1);
    assert_eq!(found[0].kind, DeclarationKind::Fragment);
    assert_eq!(found[0].name, "test");
    assert_eq!(found[0].first_line, 2);
    assert_eq!(found[0].line, 6);
}

const DUPLICATE2: &str = r#"
grammar! test

rule = a ~ b

rule = a ~ b
"#;

#[test]
fn test_duplicate2() {
    let found = diagnose(DUPLICATE2);
    assert_eq!(found.len(), 1);
    assert_eq!(found[0].kind, DeclarationKind::Rule);
    assert_eq!(found[0].name, "rule");
    assert_eq!(found[0].first_line, 4);
    assert_eq!(found[0].line, 6);
}

#[test]
fn declarations_in_line_order() {
    let decls = scan_declarations(DUPLICATE1);
    let kinds: Vec<DeclarationKind> = decls.iter().map(|d| d.kind).collect();
    assert_eq!(kinds, vec![DeclarationKind::Grammar, DeclarationKind::Rule, DeclarationKind::Fragment]);
    assert_eq!(decls[1].name, "rule");
    assert_eq!(decls[1].line, 4);
}

#[test]
fn no_duplicates_without_repetition() {
    assert!(diagnose("grammar! g\na = b\nc ^= d\nignore! x\nimport! y\n").is_empty());
    assert!(diagnose("").is_empty());
}
