use tui::style::Modifier;
use tui::text::Spans;
use tui_text::{title_spans, Color, Span, Style, TitleStyle};

fn color_of(color: tui::style::Color) -> Color {
    match color {
        tui::style::Color::Reset => Color::Reset,
        tui::style::Color::Black => Color::Black,
        tui::style::Color::Red => Color::Red,
        tui::style::Color::Green => Color::Green,
        tui::style::Color::Yellow => Color::Yellow,
        tui::style::Color::Blue => Color::Blue,
        tui::style::Color::Magenta => Color::Magenta,
        tui::style::Color::Cyan => Color::Cyan,
        tui::style::Color::Gray => Color::Gray,
        tui::style::Color::DarkGray => Color::DarkGray,
        tui::style::Color::LightRed => Color::LightRed,
        tui::style::Color::LightGreen => Color::LightGreen,
        tui::style::Color::LightYellow => Color::LightYellow,
        tui::style::Color::LightBlue => Color::LightBlue,
        tui::style::Color::LightMagenta => Color::LightMagenta,
        tui::style::Color::LightCyan => Color::LightCyan,
        tui::style::Color::White => Color::White,
        tui::style::Color::Rgb(r, g, b) => Color::Rgb(r, g, b),
        tui::style::Color::Indexed(i) => Color::Indexed(i),
    }
}

fn tui_color(color: Color) -> tui::style::Color {
    match color {
        Color::Reset => tui::style::Color::Reset,
        Color::Black => tui::style::Color::Black,
        Color::Red => tui::style::Color::Red,
        Color::Green => tui::style::Color::Green,
        Color::Yellow => tui::style::Color::Yellow,
        Color::Blue => tui::style::Color::Blue,
        Color::Magenta => tui::style::Color::Magenta,
        Color::Cyan => tui::style::Color::Cyan,
        Color::Gray => tui::style::Color::Gray,
        Color::DarkGray => tui::style::Color::DarkGray,
        Color::LightRed => tui::style::Color::LightRed,
        Color::LightGreen => tui::style::Color::LightGreen,
        Color::LightYellow => tui::style::Color::LightYellow,
        Color::LightBlue => tui::style::Color::LightBlue,
        Color::LightMagenta => tui::style::Color::LightMagenta,
        Color::LightCyan => tui::style::Color::LightCyan,
        Color::White => tui::style::Color::White,
        Color::Rgb(r, g, b) => tui::style::Color::Rgb(r, g, b),
        Color::Indexed(i) => tui::style::Color::Indexed(i),
    }
}

fn style_of(style: tui::style::Style) -> Style {
    Style {
        fg: style.fg.map(color_of),
        bg: style.bg.map(color_of),
        add_modifier: style.add_modifier.bits(),
        sub_modifier: style.sub_modifier.bits(),
    }
}

fn tui_style(style: Style) -> tui::style::Style {
    tui::style::Style {
        fg: style.fg.map(tui_color),
        bg: style.bg.map(tui_color),
        add_modifier: Modifier::from_bits_truncate(style.add_modifier),
        sub_modifier: Modifier::from_bits_truncate(style.sub_modifier),
    }
}

fn tui_spans(spans: Vec<Span>) -> Vec<tui::text::Span<'static>> {
    spans
        .into_iter()
        .map(|span| tui::text::Span::styled(span.content, tui_style(span.style)))
        .collect()
}

fn red_bold() -> Style {
    style_of(
        tui::style::Style::default()
            .fg(tui::style::Color::Red)
            .add_modifier(Modifier::BOLD),
    )
}

fn text_of(spans: &[Span]) -> String {
    spans.iter().map(|span| span.content.as_str()).collect()
}

#[test]
fn test_2_dimensional_vector_to_spans() {
    let s = Spans::from(tui_spans(title_spans(
        &[TitleStyle::Combined("Time", "Some time")],
        style_of(
            tui::style::Style::default()
                .fg(tui::style::Color::Red)
                .add_modifier(Modifier::BOLD),
        ),
    )));

    assert_eq!(s.width(), "[ Time: Some time ]".len());
}

#[test]
fn title_of_a_label_and_a_value() {
    let spans = title_spans(&[TitleStyle::Combined("Time", "Some time")], red_bold());

    assert_eq!(
        spans,
        vec![
            Span { content: "[ ".to_string(), style: Style::default() },
            Span { content: "Time".to_string(), style: red_bold() },
            Span { content: ": Some time ]".to_string(), style: Style::default() },
        ]
    );
    assert_eq!(text_of(&spans), "[ Time: Some time ]");
}

#[test]
fn title_of_a_value_alone() {
    let spans = title_spans(&[TitleStyle::Single("Chat")], red_bold());

    assert_eq!(
        spans,
        vec![
            Span { content: "[ ".to_string(), style: Style::default() },
            Span { content: "Chat".to_string(), style: red_bold() },
            Span { content: " ]".to_string(), style: Style::default() },
        ]
    );
}

#[test]
fn title_of_a_custom_span_keeps_its_style() {
    let own = Style {
        fg: Some(Color::Rgb(1, 2, 3)),
        bg: Some(Color::Indexed(9)),
        add_modifier: 4,
        sub_modifier: 1,
    };
    let custom = Span { content: "filter".to_string(), style: own };
    let spans = title_spans(&[TitleStyle::Custom(custom)], red_bold());

    assert_eq!(
        spans,
        vec![
            Span { content: "[ ".to_string(), style: Style::default() },
            Span { content: "filter".to_string(), style: own },
            Span { content: " ]".to_string(), style: Style::default() },
        ]
    );
}

#[test]
fn title_of_nothing_is_empty() {
    assert_eq!(title_spans(&[], red_bold()), Vec::new());
}

#[test]
fn title_groups_are_set_one_space_apart_in_order() {
    let custom = Span { content: "live".to_string(), style: Style::default() };
    let contents = [
        TitleStyle::Combined("Time", "12:00"),
        TitleStyle::Single("Chat"),
        TitleStyle::Custom(custom),
        TitleStyle::Single("Chat"),
    ];
    let spans = title_spans(&contents, red_bold());

    assert_eq!(spans.len(), 12);
    assert_eq!(text_of(&spans), "[ Time: 12:00 ] [ Chat ] [ live ] [ Chat ]");
    let openings: Vec<&str> = spans.iter().step_by(3).map(|span| span.content.as_str()).collect();
    assert_eq!(openings, vec!["[ ", " [ ", " [ ", " [ "]);
    let styles: Vec<Style> = spans.iter().map(|span| span.style).collect();
    let plain = Style::default();
    assert_eq!(
        styles,
        vec![
            plain, red_bold(), plain,
            plain, red_bold(), plain,
            plain, plain, plain,
            plain, red_bold(), plain,
        ]
    );
}

#[test]
fn title_width_counts_columns() {
    let spans = title_spans(&[TitleStyle::Combined("频道", "绝对")], red_bold());
    let s = Spans::from(tui_spans(spans));

    // "[ " + two wide characters + ": " + two wide characters + " ]"
    assert_eq!(s.width(), 2 + 4 + 2 + 4 + 2);
}

#[test]
fn title_with_empty_texts_keeps_its_brackets() {
    let spans = title_spans(&[TitleStyle::Combined("", ""), TitleStyle::Single("")], red_bold());
    assert_eq!(text_of(&spans), "[ :  ] [  ]");
    assert_eq!(spans.len(), 6);
}

#[test]
fn title_spans_repeated_gives_the_same() {
    let contents = [TitleStyle::Combined("Time", "12:00"), TitleStyle::Single("Chat")];
    let first = title_spans(&contents, red_bold());
    let second = title_spans(&contents, red_bold());
    assert_eq!(first, second);
}

#[test]
fn default_style_changes_nothing() {
    assert_eq!(
        Style::default(),
        Style { fg: None, bg: None, add_modifier: 0, sub_modifier: 0 }
    );
    assert_eq!(tui_style(Style::default()), tui::style::Style::default());
    assert_eq!(style_of(tui::style::Style::default()), Style::default());
}

#[test]
fn span_constructors_and_clone() {
    let raw = Span::raw("text".to_string());
    assert_eq!(raw, Span { content: "text".to_string(), style: Style::default() });
    let styled = Span::styled("text".to_string(), red_bold());
    assert_eq!(styled, Span { content: "text".to_string(), style: red_bold() });
    assert_eq!(styled.clone(), styled);
    assert_eq!(red_bold().fg, Some(Color::Red));
    assert_eq!(red_bold().add_modifier, 1);
}
