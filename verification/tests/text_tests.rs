use tripflow::text::{list_names, Canvas, Color, Text, TextSpan};

#[test]
fn building_lines() {
    let mut txt = Text::new();
    assert!(txt.is_empty());
    assert_eq!(txt.num_lines(), 0);
    txt.add_line("hello".to_string());
    assert_eq!(txt.num_lines(), 1);
    assert!(!txt.is_empty());
    txt.pad_if_nonempty();
    assert_eq!(txt.num_lines(), 2);
    assert!(txt.lines[1].is_empty());
}

#[test]
fn pad_on_empty_does_nothing() {
    let mut txt = Text::new();
    txt.pad_if_nonempty();
    assert_eq!(txt.num_lines(), 0);
}

#[test]
fn from_line_holds_one_default_span() {
    let txt = Text::from_line("caption".to_string());
    assert_eq!(txt.num_lines(), 1);
    assert_eq!(txt.lines[0].len(), 1);
    assert_eq!(txt.lines[0][0].text, "caption");
    assert_eq!(txt.lines[0][0].fg_color, Color { r: 0, g: 0, b: 0, a: 255 });
    assert_eq!(txt.lines[0][0].highlight_color, None);
}

#[test]
fn styled_lines_and_appends() {
    let mut txt = Text::new();
    let red = Color::red();
    txt.add_styled_line("alert".to_string(), red, Some(Color::yellow()));
    txt.append(" now".to_string(), red, None);
    assert_eq!(txt.num_lines(), 1);
    assert_eq!(txt.lines[0].len(), 2);
    assert_eq!(txt.lines[0][0].text, "alert");
    assert_eq!(txt.lines[0][0].highlight_color, Some(Color::yellow()));
    assert_eq!(txt.lines[0][1].text, " now");
}

#[test]
fn wrapped_lines_split_on_width() {
    // A 200-pixel window at 25 pixels per glyph wraps at 8 characters.
    let canvas = Canvas { window_width: 200 };
    let mut txt = Text::new();
    txt.add_wrapped_line(&canvas, "Foo   bar baz".to_string());
    assert_eq!(txt.num_lines(), 2);
    assert_eq!(txt.lines[0][0].text, "Foo");
    assert_eq!(txt.lines[1][0].text, "bar baz");
}

#[test]
fn wrapping_keeps_interword_spaces_when_they_fit() {
    // A 250-pixel window wraps at 10 characters.
    let canvas = Canvas { window_width: 250 };
    let mut txt = Text::new();
    txt.add_wrapped_line(&canvas, "Foo   bar baz".to_string());
    assert_eq!(txt.num_lines(), 2);
    assert_eq!(txt.lines[0][0].text, "Foo   bar");
    assert_eq!(txt.lines[1][0].text, "baz");
}

#[test]
fn short_lines_stay_whole() {
    let canvas = Canvas { window_width: 1000 };
    let mut txt = Text::from_line("title".to_string());
    txt.add_wrapped_line(&canvas, "a short line".to_string());
    assert_eq!(txt.num_lines(), 2);
    assert_eq!(txt.lines[1][0].text, "a short line");
}

#[test]
fn listing_two_names() {
    let mut txt = Text::from_line("Streets: ".to_string());
    list_names(&mut txt, |s: TextSpan| s, vec!["Elm".to_string(), "Oak".to_string()]);
    let texts: Vec<&str> = txt.lines[0].iter().map(|s| s.text.as_str()).collect();
    assert_eq!(texts, vec!["Streets: ", "Elm", " and ", "Oak"]);
}

#[test]
fn listing_three_names_uses_an_oxford_comma() {
    let mut txt = Text::from_line("".to_string());
    list_names(
        &mut txt,
        |s: TextSpan| s,
        vec!["Elm".to_string(), "Oak".to_string(), "Pine".to_string()],
    );
    let texts: Vec<&str> = txt.lines[0].iter().map(|s| s.text.as_str()).collect();
    assert_eq!(texts, vec!["", "Elm", ", ", "Oak", ", and ", "Pine"]);
}

#[test]
fn listing_applies_the_styler() {
    let mut txt = Text::from_line("x".to_string());
    let red = Color::red();
    list_names(
        &mut txt,
        move |mut s: TextSpan| {
            s.fg_color = red;
            s
        },
        vec!["Elm".to_string()],
    );
    assert_eq!(txt.lines[0][1].text, "Elm");
    assert_eq!(txt.lines[0][1].fg_color, red);
}
