use proxy_dll::manifest::{parse_manifest, strip_comments, ExportKind, ManifestError};

#[test]
fn strip_removes_comment_lines() {
    let out = strip_comments("; header comment\nfoo\n  ; indented comment\nbar\n");
    assert_eq!(out, "foo\nbar\n");
}

#[test]
fn strip_keeps_comment_free_text_identical() {
    let input = "foo\nbar @3\nbaz @7 NONAME\n";
    assert_eq!(strip_comments(input), input);
}

#[test]
fn strip_keeps_blank_lines_and_missing_final_newline() {
    let input = "foo\n\nbar";
    assert_eq!(strip_comments(input), input);
}

#[test]
fn strip_handles_tab_indented_comments() {
    assert_eq!(strip_comments("\t ; note\nkeep\n"), "keep\n");
}

#[test]
fn strip_is_idempotent_on_samples() {
    let samples = [
        "; a\r\nx\r\n\r\n",
        "foo\n; b\nbar",
        "",
        ";only a comment",
        "\n\n; c\n",
    ];
    for s in samples {
        let once = strip_comments(s);
        let twice = strip_comments(&once);
        assert_eq!(once, twice);
    }
}

#[test]
fn strip_of_only_comments_is_empty() {
    assert_eq!(strip_comments("; one\n;two\n   ;three"), "");
}

#[test]
fn parse_named_and_ordinal_only_entries() {
    let ds = parse_manifest("foo @1 NONAME\nbar").unwrap();
    assert_eq!(ds.len(), 2);
    assert_eq!(ds[0].name, "foo");
    assert_eq!(ds[0].kind, ExportKind::OrdinalOnly);
    assert_eq!(ds[0].ordinal, Some(1));
    assert_eq!(ds[1].name, "bar");
    assert_eq!(ds[1].kind, ExportKind::Named);
    assert_eq!(ds[1].ordinal, None);
}

#[test]
fn parse_named_with_fixed_ordinal() {
    let ds = parse_manifest("foo @5\n").unwrap();
    assert_eq!(ds.len(), 1);
    assert_eq!(ds[0].name, "foo");
    assert_eq!(ds[0].kind, ExportKind::Named);
    assert_eq!(ds[0].ordinal, Some(5));
}

#[test]
fn parse_skips_comments_and_blank_lines() {
    let ds = parse_manifest("; exports of the target\n\nfoo\n   \nbar\n").unwrap();
    assert_eq!(ds.len(), 2);
    assert_eq!(ds[0].name, "foo");
    assert_eq!(ds[1].name, "bar");
}

#[test]
fn parse_empty_manifest_is_empty() {
    let ds = parse_manifest("").unwrap();
    assert!(ds.is_empty());
}

#[test]
fn parse_rejects_noname_without_ordinal() {
    let r = parse_manifest("foo NONAME\n");
    assert_eq!(r.unwrap_err(), ManifestError::MalformedManifest);
}

#[test]
fn parse_rejects_missing_name() {
    let r = parse_manifest("@1 NONAME\n");
    assert_eq!(r.unwrap_err(), ManifestError::MalformedManifest);
}

#[test]
fn parse_rejects_oversized_ordinal() {
    let r = parse_manifest("foo @65536 NONAME\n");
    assert_eq!(r.unwrap_err(), ManifestError::MalformedManifest);
    let ok = parse_manifest("foo @65535 NONAME\n").unwrap();
    assert_eq!(ok[0].ordinal, Some(65535));
}

#[test]
fn parse_rejects_trailing_garbage() {
    assert!(parse_manifest("foo @1 NONAME extra\n").is_err());
    assert!(parse_manifest("foo bar\n").is_err());
    assert!(parse_manifest("foo @x\n").is_err());
}

#[test]
fn parse_keeps_manifest_order() {
    let ds = parse_manifest("c\na\nb\n").unwrap();
    let names: Vec<&str> = ds.iter().map(|d| d.name.as_str()).collect();
    assert_eq!(names, ["c", "a", "b"]);
}
