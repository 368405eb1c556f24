use weecord::style::{ColorTable, Style};
use weecord::styled_string::{Op, StyledString};

fn sample() -> StyledString {
    let mut string = StyledString::new();
    string.push_style(Style::Bold);
    string.push_str("**");
    string.push_style(Style::Italic);
    string.push_str("_Hi___");
    string.pop_style(Style::Italic);
    string.push_str(" there__**");
    string.pop_style(Style::Bold);
    string
}

#[test]
fn find() {
    let string = sample();
    assert_eq!(string.find("Hi"), Some(3));
}

#[test]
fn slice() {
    let string = sample();

    let mut target = StyledString::new();
    target.push_style(Style::Bold);
    target.push_str("**");
    target.push_style(Style::Italic);
    target.push_str("_");
    assert_eq!(string.slice(0..3).build(), target.build());
}

#[test]
fn newline() {
    let mut string = StyledString::new();
    string.push_str("Foo\nBar");

    assert_eq!(
        string.into_ops(),
        vec![
            Op::Literal("Foo".into()),
            Op::Newline,
            Op::Literal("Bar".into()),
        ]
    );

    let mut string = StyledString::new();
    string.push_str("Foo\nBar\nBaz");

    assert_eq!(
        string.into_ops(),
        vec![
            Op::Literal("Foo".into()),
            Op::Newline,
            Op::Literal("Bar".into()),
            Op::Newline,
            Op::Literal("Baz".into()),
        ]
    );
}

#[test]
fn lines() {
    let mut string = StyledString::new();
    string
        .push_str("Foo\nBar")
        .push_style(Style::Bold)
        .push_str("Baz\nSpam\nEggs");

    let target: Vec<String> = vec!["Foo", "BarboldBaz-bold", "boldSpam-bold", "boldEggs-bold"]
        .into_iter()
        .map(String::from)
        .collect();
    assert_eq!(
        string
            .lines()
            .iter()
            .map(StyledString::build)
            .collect::<Vec<_>>(),
        target
    );
}

#[test]
fn multiline() {
    let mut string = StyledString::new();
    string
        .push_str("Foo\nBar")
        .push_style(Style::Bold)
        .push_str("Baz\nSpam\nEggs");

    assert_eq!(string.build(), "Foo\nBarboldBaz\nboldSpam\nboldEggs-bold");
}

#[test]
fn string_absorption() {
    let mut string = StyledString::new();
    string.push_style(Style::Italic).push_str("[prefix]");

    let mut inner_string = StyledString::new();
    inner_string
        .push_style(Style::Bold)
        .push_style(Style::Color("red".to_owned()))
        .push_str("[inner]");

    string.absorb(inner_string);

    string
        .push_str("[middle]")
        .push_style(Style::Bold)
        .push_str("[suffix]");

    assert_eq!(
        string.build(),
        "italic[prefix]boldred[inner]-boldresetitalic[middle]bold[suffix]-bold-italic"
    );
}

#[test]
fn string_absoption_nested() {
    let mut string = StyledString::new();
    string
        .push_style(Style::Bold)
        .push_style(Style::Italic)
        .push_str("[prefix]");

    let mut inner_string = StyledString::new();
    inner_string.push_style(Style::Bold).push_str("[inner]");

    string.absorb(inner_string);

    string
        .push_str("[middle]")
        .push_style(Style::Bold)
        .push_str("[suffix]");

    assert_eq!(
        string.build(),
        "bolditalic[prefix][inner][middle][suffix]-bold-italic"
    );
}

#[test]
fn string_append() {
    let mut string = StyledString::new();
    string.push_style(Style::Italic);
    string.push_str("[first]");

    let mut second_string = StyledString::new();
    second_string.push_style(Style::Bold);
    second_string.push_str("[second]");

    string.append(second_string);

    assert_eq!(string.build(), "italic[first]bold[second]-bold-italic");
}

#[test]
fn built_string_cleanup() {
    let mut string = StyledString::new();
    string.push_style(Style::Italic);
    string.push_str("text");

    assert_eq!(string.build(), "italictext-italic");

    let mut string = StyledString::new();
    string.push_style(Style::Color("red".to_owned()));
    string.push_str("text");

    assert_eq!(string.build(), "redtextreset");

    let mut string = StyledString::new();
    string.push_style(Style::Italic);
    string.push_style(Style::Color("red".to_owned()));
    string.push_str("text");

    assert_eq!(string.build(), "italicredtextreset");
}

#[test]
fn repeats() {
    let mut string = StyledString::new();
    string.push_str("[prefix]");
    string.push_style(Style::Bold);
    string.push_str("[one_bold]");
    string.push_style(Style::Bold);
    string.push_str("[two_bold]");
    string.pop_style(Style::Bold);
    string.push_str("[one_bold]");
    string.pop_style(Style::Bold);
    string.push_str("[suffix]");

    assert_eq!(
        &string.build(),
        "[prefix]bold[one_bold][two_bold][one_bold]-bold[suffix]"
    )
}

#[test]
fn nested() {
    let string = sample();
    assert_eq!(&string.build(), "bold**italic_Hi___-italic there__**-bold");
}

#[test]
fn resets_inner() {
    let mut string = StyledString::new();
    string.push_style(Style::Bold);
    string.push_str("**");
    let mut inner = StyledString::new();
    inner.push_style(Style::Italic);
    inner.push_str("_Hi___");
    inner.pop_style(Style::Italic);
    string.append(inner);
    string.push_str(" there__**");
    string.pop_style(Style::Bold);

    assert_eq!(&string.build(), "bold**italic_Hi___-italic there__**-bold");
}

#[test]
fn extend() {
    let mut string = StyledString::new();
    string.push_str("[prefix]");
    string.push_style(Style::Bold);
    string.push_str("[outer]");
    let mut other = StyledString::new();
    other.push_style(Style::Italic);
    other.push_str("[other]");
    string.append(other.clone());

    assert_eq!(
        &string.build(),
        "[prefix]bold[outer]italic[other]-bold-italic"
    );
}

#[test]
fn styled_string_newline() {
    let mut string = StyledString::new();
    string.push_str("[prefix]");
    string.push_style(Style::Bold);
    string.push_str("[bold]\n[still bold]");
    string.pop_style(Style::Bold);

    assert_eq!(&string.build(), "[prefix]bold[bold]\nbold[still bold]-bold");
}

#[test]
fn single_newline() {
    let mut string = StyledString::new();
    string.push_str("[prefix]");
    string.push_style(Style::Bold);
    string.push_str("[bold]");
    string.push_str("\n");
    string.push_str("[still bold]");
    string.pop_style(Style::Bold);

    assert_eq!(&string.build(), "[prefix]bold[bold]\nbold[still bold]-bold");
}

#[test]
fn build_with_table_uses_codes() {
    let mut table = ColorTable::identity();
    table.set("bold", "<B>");
    table.set("-bold", "</B>");
    let mut string = StyledString::new();
    string.push_styled_str(Style::Bold, "x");
    assert_eq!(string.build_with(&table), "<B>x</B>");
}

#[test]
fn plain_text_builds_to_itself() {
    let string = StyledString::from_text("one\ntwo\n");
    assert_eq!(string.build(), "one\ntwo\n");
}

#[test]
fn absorb_keeps_outer_styles() {
    let mut string = StyledString::new();
    string.push_style(Style::Underline);
    let mut inner = StyledString::new();
    inner.push_style(Style::Italic).push_str("i");
    string.absorb(inner);
    string.push_str("u");
    assert_eq!(string.build(), "underlineitalici-italicu-underline");
}

#[test]
fn styled_text_keeps_styles() {
    let mut string = StyledString::new();
    string.push_styled_str(Style::Color("red".into()), "a");
    string.push_str("b");
    assert_eq!(string.build(), "redaresetb");
    assert_eq!(string.current_styles(), Vec::<Style>::new());
}

#[test]
fn find_counts_bytes_not_line_breaks() {
    let mut string = StyledString::new();
    string.push_str("é\nab");
    assert_eq!(string.find("b"), Some(3));
    assert_eq!(string.find("z"), None);
    assert_eq!(string.find(""), Some(0));
}

#[test]
fn slice_cuts_at_char_boundaries_only() {
    let string = StyledString::from_text("éa");
    assert_eq!(string.slice(1..3).build(), "");
    let string = StyledString::from_text("éa");
    assert_eq!(string.slice(2..3).build(), "a");
}

#[test]
fn slice_keeps_whole_literals_before_start() {
    let mut string = StyledString::new();
    string.push_str("ab");
    string.push_style(Style::Bold);
    string.push_str("cdef");
    assert_eq!(string.slice(3..5).build(), "abboldde-bold");
}

#[test]
fn lines_drop_trailing_empty_line() {
    let string = StyledString::new();
    assert_eq!(string.lines().len(), 0);
    let mut string = StyledString::new();
    string.push_style(Style::Bold).push_str("a\n");
    let lines = string.lines();
    assert_eq!(lines.len(), 2);
    assert_eq!(lines[1].build(), "bold-bold");
}

#[test]
fn current_styles_are_sorted_and_unique() {
    let mut string = StyledString::new();
    string
        .push_style(Style::Color("blue".into()))
        .push_style(Style::Italic)
        .push_style(Style::Bold)
        .push_style(Style::Italic);
    assert_eq!(
        string.current_styles(),
        vec![Style::Bold, Style::Italic, Style::Color("blue".into())]
    );
}

#[test]
fn absorb_switches_off_repeated_styles() {
    let mut string = StyledString::new();
    let mut inner = StyledString::new();
    inner.push_style(Style::Bold).push_style(Style::Bold).push_str("x");
    string.absorb(inner);
    assert_eq!(string.current_styles(), Vec::<Style>::new());
    string.push_str("y");
    assert_eq!(string.build(), "boldx-boldy");
}

#[test]
fn find_then_slice_gives_the_pattern() {
    let text = "héllo wörld";
    let string = StyledString::from_text(text);
    let i = string.find("wö").unwrap();
    assert_eq!(i, 7);
    assert_eq!(string.duplicate().slice(i..i + "wö".len()).build(), "wö");
}

#[test]
fn find_then_slice_before_a_line_break() {
    let string = StyledString::from_text("héllo wörld\nnext line");
    let i = string.find("wö").unwrap();
    assert_eq!(i, 7);
    assert_eq!(string.duplicate().slice(i..i + "wö".len()).build(), "wö");
}
