use repat::pattern::compile;
use repat::pipeline::process_diff;

/// Applies a unified diff to the text it was produced from and returns the
/// patched text. Lines are matched without their terminators; every line of
/// the inputs used here ends with a newline.
fn apply_unified(before: &str, diff: &str) -> String {
    let old_lines: Vec<&str> = before.lines().collect();
    let mut out: Vec<String> = Vec::new();
    let mut old_pos: usize = 0;
    for line in diff.lines() {
        if line.starts_with("--- ") || line.starts_with("+++ ") || line.starts_with('\\') {
            continue;
        }
        if line.starts_with("@@") {
            let old_range = line
                .split_whitespace()
                .nth(1)
                .unwrap()
                .trim_start_matches('-')
                .to_string();
            let old_start: usize = old_range.split(',').next().unwrap().parse().unwrap();
            while old_pos + 1 < old_start {
                out.push(old_lines[old_pos].to_string());
                old_pos += 1;
            }
            continue;
        }
        if let Some(ctx) = line.strip_prefix(' ') {
            assert_eq!(ctx, old_lines[old_pos], "context line must match the original");
            out.push(ctx.to_string());
            old_pos += 1;
        } else if line.strip_prefix('-').is_some() {
            old_pos += 1;
        } else if let Some(added) = line.strip_prefix('+') {
            out.push(added.to_string());
        }
    }
    while old_pos < old_lines.len() {
        out.push(old_lines[old_pos].to_string());
        old_pos += 1;
    }
    let mut patched = out.join("\n");
    patched.push('\n');
    patched
}

#[test]
fn diff_round_trip_reproduces_substitution() {
    let before = "foo one\nbar two\nfoo three\nkeep\n";
    let cp = compile("foo").ok().unwrap();
    let diff = process_diff(&cp, "sample.txt", before, "baz");
    let patched = apply_unified(before, &diff);
    assert_eq!(patched, "baz one\nbar two\nbaz three\nkeep\n");
}

#[test]
fn diff_headers_carry_the_path_twice() {
    let before = "foo\n";
    let cp = compile("foo").ok().unwrap();
    let diff = process_diff(&cp, "notes.md", before, "bar");
    assert!(diff.starts_with("--- notes.md\n+++ notes.md\n"));
}

#[test]
fn diff_uses_group_references() {
    let before = "name: alpha\n";
    let cp = compile("name: (\\w+)").ok().unwrap();
    let diff = process_diff(&cp, "f", before, "$1: name");
    let patched = apply_unified(before, &diff);
    assert_eq!(patched, "alpha: name\n");
}

#[test]
fn diff_of_unchanged_text_is_empty() {
    let before = "nothing here\n";
    let cp = compile("absent").ok().unwrap();
    let diff = process_diff(&cp, "f", before, "x");
    assert_eq!(diff, "");
}
