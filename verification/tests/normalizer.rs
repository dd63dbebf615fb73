use rustdoc_to_markdown::normalize::normalize;

fn no_triple_newline(s: &str) -> bool {
    !s.contains("\n\n\n")
}

fn no_blank_line(s: &str) -> bool {
    s.lines().all(|l| l.is_empty() || l.chars().any(|c| !c.is_whitespace()))
}

#[test]
fn whitespace_only_lines_are_removed() {
    assert_eq!(normalize("a\n \t \nb"), "a\n\nb");
}

#[test]
fn newline_runs_collapse_to_one_blank_line() {
    assert_eq!(normalize("a\n\n\n\n\nb"), "a\n\nb");
    assert_eq!(normalize("a\n\n\nb"), "a\n\nb");
}

#[test]
fn single_blank_line_is_kept() {
    assert_eq!(normalize("a\n\nb"), "a\n\nb");
}

#[test]
fn document_edges_are_trimmed() {
    assert_eq!(normalize("  \n\n hello \n\n  "), "hello");
    assert_eq!(normalize("\n\nx"), "x");
    assert_eq!(normalize(""), "");
    assert_eq!(normalize(" \t\n "), "");
}

#[test]
fn padded_blank_lines_collapse_with_their_neighbours() {
    // a whitespace-padded line between bare line breaks becomes part of one run
    assert_eq!(normalize("a\n\n \t\n\nb"), "a\n\nb");
}

#[test]
fn interior_line_whitespace_is_kept() {
    assert_eq!(normalize("a \nb\tc"), "a \nb\tc");
}

#[test]
fn normalization_is_idempotent_on_samples() {
    let samples = [
        "",
        "plain",
        "a\n\n\n\nb",
        "  lead\ntrail  ",
        " \n \n \n",
        "a\r\n \r\nb",
        "```\ncode  \n```",
        "x\n\n \n\n\ny\n",
    ];
    for s in samples {
        let once = normalize(s);
        let twice = normalize(&once);
        assert_eq!(once, twice);
    }
}

#[test]
fn outputs_have_no_triple_newline_and_no_blank_line() {
    let samples = ["a\n\n\n\n\nb\n\n\n\nc", " \n\n\n x \n\n\n\n y\n \n \n\nz", "\n\n\n"];
    for s in samples {
        let out = normalize(s);
        assert!(no_triple_newline(&out), "triple newline in {:?}", out);
        assert!(no_blank_line(&out), "blank line in {:?}", out);
    }
}

#[test]
fn carriage_returns_count_as_line_whitespace() {
    assert_eq!(normalize("a\n\r\nb"), "a\n\nb");
}
