use ansi_term::Colour;
use repat::expand::index_expansions;
use repat::pattern::MatchData;
use repat::pattern::compile;
use repat::pipeline::annotate_line;
use repat::segment::Tag;
use repat::segment::annotate;

fn match_data(spans: Vec<Option<(usize, usize)>>, expansion: &str) -> MatchData {
    MatchData { spans, expansion: expansion.to_string() }
}

#[test]
fn coverage_every_byte_has_one_owner() {
    let matches = vec![
        match_data(vec![Some((0, 4)), Some((1, 3))], "x"),
        match_data(vec![Some((6, 8))], "y"),
    ];
    let owners = annotate(10, &matches);
    let expected = vec![
        Tag::Group(0),
        Tag::Group(1),
        Tag::Group(1),
        Tag::Group(0),
        Tag::Plain,
        Tag::Plain,
        Tag::Group(0),
        Tag::Group(0),
        Tag::Plain,
        Tag::Plain,
    ];
    assert_eq!(owners, expected);
}

#[test]
fn inner_group_wins_over_parent() {
    // One match of a nested pattern: group 1 spans the whole match, group 2
    // sits strictly inside it; every byte of the inner span belongs to the
    // inner group.
    let matches = vec![match_data(vec![Some((0, 3)), Some((0, 3)), Some((1, 2))], "x")];
    let owners = annotate(3, &matches);
    assert_eq!(owners, vec![Tag::Group(1), Tag::Group(2), Tag::Group(1)]);
}

#[test]
fn disjoint_matches_commute() {
    let first = match_data(vec![Some((0, 2))], "x");
    let second = match_data(vec![Some((4, 6))], "y");
    let one_way = annotate(6, &vec![first, second]);
    let first = match_data(vec![Some((0, 2))], "x");
    let second = match_data(vec![Some((4, 6))], "y");
    let other_way = annotate(6, &vec![second, first]);
    assert_eq!(one_way, other_way);
}

#[test]
fn expansion_placement() {
    let cp = compile("a").ok().unwrap();
    let out = annotate_line(&cp, "ab", "X");
    let expected = format!(
        "{}{}b\n",
        Colour::Red.bold().strikethrough().paint("a"),
        Colour::White.bold().underline().paint("X"),
    );
    assert_eq!(out, expected.into_bytes());
}

#[test]
fn zero_length_matches_register_expansions() {
    let cp = compile("").ok().unwrap();
    let out = annotate_line(&cp, "ab", "X");
    let ins = format!("{}", Colour::White.bold().underline().paint("X"));
    let expected = format!("{ins}a{ins}b{ins}\n");
    assert_eq!(out, expected.into_bytes());
}

#[test]
fn end_to_end_two_matches_same_color() {
    let cp = compile("foo").ok().unwrap();
    let out = annotate_line(&cp, "foo bar foo", "baz");
    let hit = format!("{}", Colour::Red.bold().strikethrough().paint("foo"));
    let ins = format!("{}", Colour::White.bold().underline().paint("baz"));
    let expected = format!("{hit}{ins} bar {hit}{ins}\n");
    assert_eq!(out, expected.into_bytes());
}

#[test]
fn group_references_expand_in_replacement() {
    let cp = compile("(f)(o+)").ok().unwrap();
    let out = annotate_line(&cp, "foo", "$2$1");
    let expected = format!(
        "{}{}{}{}\n",
        Colour::Green.bold().strikethrough().paint("f"),
        Colour::Yellow.bold().strikethrough().paint("oo"),
        Colour::White.bold().underline().paint("oof"),
        "",
    );
    assert_eq!(out, expected.into_bytes());
}

#[test]
fn palette_cycles_beyond_six_colors() {
    let cp = compile("(a)(b)(c)(d)(e)(f)(g)").ok().unwrap();
    let out = annotate_line(&cp, "abcdefg", "-");
    let palette = [
        Colour::Red,
        Colour::Green,
        Colour::Yellow,
        Colour::Blue,
        Colour::Purple,
        Colour::Cyan,
    ];
    let mut expected = String::new();
    let text = "abcdefg";
    for (i, ch) in text.chars().enumerate() {
        // byte i is owned by group i + 1, colored with palette[(i + 1) % 6]
        let colour = palette[(i + 1) % palette.len()];
        expected.push_str(&format!(
            "{}",
            colour.bold().strikethrough().paint(ch.to_string())
        ));
    }
    expected.push_str(&format!("{}", Colour::White.bold().underline().paint("-")));
    expected.push('\n');
    assert_eq!(out, expected.into_bytes());
    // the same color serves group 1 and group 7
    let seventh = format!("{}", Colour::Green.bold().strikethrough().paint("g"));
    let rendered = String::from_utf8(annotate_line(&cp, "abcdefg", "-")).unwrap();
    assert!(rendered.contains(&seventh));
}

#[test]
fn line_without_matches_stays_plain() {
    let cp = compile("xyz").ok().unwrap();
    let out = annotate_line(&cp, "plain text", "never");
    assert_eq!(out, b"plain text\n".to_vec());
}

#[test]
fn empty_line_renders_as_newline() {
    let cp = compile("a").ok().unwrap();
    let out = annotate_line(&cp, "", "X");
    assert_eq!(out, b"\n".to_vec());
}

#[test]
fn empty_pattern_on_empty_line() {
    let cp = compile("").ok().unwrap();
    let out = annotate_line(&cp, "", "X");
    let expected = format!("{}\n", Colour::White.bold().underline().paint("X"));
    assert_eq!(out, expected.into_bytes());
}

#[test]
fn multibyte_text_keeps_byte_precision() {
    let cp = compile("é").ok().unwrap();
    let out = annotate_line(&cp, "café!", "e");
    let expected = format!(
        "caf{}{}!\n",
        Colour::Red.bold().strikethrough().paint("é"),
        Colour::White.bold().underline().paint("e"),
    );
    assert_eq!(out, expected.into_bytes());
}

#[test]
fn expansions_at_one_offset_keep_match_order() {
    let matches = vec![
        match_data(vec![Some((0, 2))], "x"),
        match_data(vec![Some((2, 2))], "y"),
    ];
    let table = index_expansions(4, &matches);
    assert_eq!(table.len(), 5);
    assert_eq!(table[0], Vec::<String>::new());
    assert_eq!(table[1], Vec::<String>::new());
    assert_eq!(table[2], vec!["x".to_string(), "y".to_string()]);
    assert_eq!(table[3], Vec::<String>::new());
    assert_eq!(table[4], Vec::<String>::new());
}

#[test]
fn invalid_pattern_is_reported() {
    match compile("(") {
        Ok(_) => panic!("an unbalanced parenthesis must not compile"),
        Err(e) => {
            let msg = e.message();
            assert!(!msg.is_empty());
        }
    }
}

#[test]
fn skipped_group_gets_no_span() {
    // In "abc123" the alternative "[A-Z]+" does not participate; its entry
    // stays unowned and only the digits carry group 1's color.
    let cp = compile("[a-z]+(?:([0-9]+)|([A-Z]+))").ok().unwrap();
    let out = annotate_line(&cp, "abc123", "$1$2");
    let expected = format!(
        "{}{}{}\n",
        Colour::Red.bold().strikethrough().paint("abc"),
        Colour::Green.bold().strikethrough().paint("123"),
        Colour::White.bold().underline().paint("123"),
    );
    assert_eq!(out, expected.into_bytes());
}
