use blink_pairs::config::{collect_tokens, grammar_for};

#[test]
fn collect_tokens_gathers_first_bytes() {
    let def = grammar_for("c").unwrap();
    // Newline and backslash always, plus the first byte of every marker,
    // sorted and without repeats.
    assert_eq!(
        collect_tokens(&def),
        vec![10, 34, 39, 40, 41, 42, 47, 91, 92, 93, 123, 125]
    );
}

#[test]
fn collect_tokens_tex() {
    let def = grammar_for("tex").unwrap();
    assert_eq!(
        collect_tokens(&def),
        vec![10, 37, 40, 41, 91, 92, 93, 123, 125]
    );
}

#[test]
fn registry_knows_its_languages() {
    for name in [
        "c", "cpp", "tex", "nix", "lean", "elixir", "scala", "r", "ocaml", "fsharp", "objc",
        "markdown",
    ] {
        assert!(grammar_for(name).is_some(), "missing grammar");
    }
    assert!(grammar_for("").is_none());
    assert!(grammar_for("cobol").is_none());
}

#[test]
fn grammar_fields_hold_the_markers() {
    let def = grammar_for("cpp").unwrap();
    assert_eq!(def.name, "cpp");
    assert_eq!(def.delimiters.len(), 3);
    assert_eq!(def.line_comments, vec![b"//".to_vec()]);
    assert_eq!(
        def.block_strings,
        vec![(b"R\"(".to_vec(), b")\"".to_vec())]
    );
}
