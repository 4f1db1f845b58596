use crate::app::App;
use ratatui::style::Color;
use std::str::FromStr;
use vstd::prelude::*;

verus! {

/// A colour by its red, green and blue parts.
#[derive(Clone, Copy, Debug, PartialEq, Eq)]
pub struct Rgb {
    pub r: u8,
    pub g: u8,
    pub b: u8,
}

/// The value of a hexadecimal digit.
pub open spec fn hex_digit(c: char) -> Option<int> {
    if '0' <= c <= '9' {
        Some(c as int - '0' as int)
    } else if 'a' <= c <= 'f' {
        Some(c as int - 'a' as int + 10)
    } else if 'A' <= c <= 'F' {
        Some(c as int - 'A' as int + 10)
    } else {
        None
    }
}

/// The string is `#` and six hexadecimal digits.
pub open spec fn is_hex_color(s: Seq<char>) -> bool {
    &&& s.len() == 7
    &&& s[0] == '#'
    &&& hex_digit(s[1]) is Some
    &&& hex_digit(s[2]) is Some
    &&& hex_digit(s[3]) is Some
    &&& hex_digit(s[4]) is Some
    &&& hex_digit(s[5]) is Some
    &&& hex_digit(s[6]) is Some
}

/// The number that two hexadecimal digits write.
pub open spec fn hex_byte(high: char, low: char) -> u8 {
    (16 * hex_digit(high)->0 + hex_digit(low)->0) as u8
}

/// The colour that `#RRGGBB` writes.
pub open spec fn hex_color(s: Seq<char>) -> Rgb {
    Rgb { r: hex_byte(s[1], s[2]), g: hex_byte(s[3], s[4]), b: hex_byte(s[5], s[6]) }
}

/// Reads a colour written as `#RRGGBB` with ratatui's `Color::from_str`.
///
/// Not proved: that on `#` and six hexadecimal digits `from_str` gives the
/// colour whose red, green and blue parts are the three pairs of digits.
#[verifier::external_body]
fn parse_color(s: &str) -> (color: Option<Rgb>)
    requires
        is_hex_color(s@),
    ensures
        color == Some(hex_color(s@)),
{
    match Color::from_str(s) {
        Ok(Color::Rgb(r, g, b)) => Some(Rgb { r, g, b }),
        _ => None,
    }
}

/// The title of the panel that lists the tasks.
pub const TASKS_TITLE: &'static str = "Tasks";

/// The title of the panel that shows the description of the selected task.
pub const DESCRIPTION_TITLE: &'static str = "Description";

/// The title of the panel that shows the summary of the selected task.
pub const SUMMARY_TITLE: &'static str = "Summary";

/// A piece of a line of text, in a colour of its own or in that of the
/// terminal.
#[derive(Debug, PartialEq, Eq)]
pub struct Span {
    pub text: String,
    pub color: Option<Rgb>,
}

/// What is drawn: the list of tasks on the left, the description and the
/// summary of the selected task on the right, and the footer with the keys.
#[derive(Debug, PartialEq, Eq)]
pub struct Screen {
    /// The names of the tasks, from the top down.
    pub tasks: Vec<String>,
    /// The position of the task that is highlighted.
    pub selected: Option<usize>,
    /// The background of the highlighted task.
    pub highlight: Rgb,
    /// The text of the description panel.
    pub description: String,
    /// The text of the summary panel.
    pub summary: String,
    /// The pieces of the footer, from left to right.
    pub footer: Vec<Span>,
}

/// The background of the highlighted task.
pub open spec fn highlight_color() -> Rgb {
    Rgb { r: 0x13, g: 0xa4, b: 0x63 }
}

/// The footer names the keys that end the session.
pub open spec fn footer_text() -> Seq<(Seq<char>, Option<Rgb>)> {
    seq![
        ("(q) / (Esc)"@, Some(Rgb { r: 0xd4, g: 0x5e, b: 0x7b })),
        (" to quit | "@, None),
        ("(Enter)"@, Some(Rgb { r: 0xee, g: 0x99, b: 0x66 })),
        (" to select task"@, None),
    ]
}

/// A line of text as the pairs of its pieces' texts and colours.
pub open spec fn line_of(spans: Seq<Span>) -> Seq<(Seq<char>, Option<Rgb>)> {
    Seq::new(spans.len(), |i: int| (spans[i].text@, spans[i].color))
}

/// The footer.
fn footer() -> (spans: Vec<Span>)
    ensures
        line_of(spans@) == footer_text(),
{
    proof {
        reveal_strlit("#d45e7b");
        reveal_strlit("#ee9966");
    }
    let quit_color = parse_color("#d45e7b").unwrap();
    let select_color = parse_color("#ee9966").unwrap();
    let mut spans: Vec<Span> = Vec::new();
    spans.push(Span { text: "(q) / (Esc)".to_owned(), color: Some(quit_color) });
    spans.push(Span { text: " to quit | ".to_owned(), color: None });
    spans.push(Span { text: "(Enter)".to_owned(), color: Some(select_color) });
    spans.push(Span { text: " to select task".to_owned(), color: None });
    assert(line_of(spans@) =~= footer_text());
    spans
}

/// What is to be drawn for the state of the program. Nothing of the state
/// is changed.
pub fn ui(app: &App) -> (screen: Screen)
    ensures
        screen.tasks@.len() == app@.items.len(),
        forall|i: int|
            0 <= i < screen.tasks@.len() ==> (#[trigger] screen.tasks@[i])@
                == app@.items.entries[i].name,
        app@.items.cursor == match screen.selected {
            Some(c) => Some(c as nat),
            None => None,
        },
        screen.highlight == highlight_color(),
        screen.description@ == app@.description(),
        screen.summary@ == app@.summary(),
        line_of(screen.footer@) == footer_text(),
{
    proof {
        reveal_strlit("#13a463");
    }
    Screen {
        tasks: app.name_list(),
        selected: app.items().selected(),
        highlight: parse_color("#13a463").unwrap(),
        description: app.get_desc().to_owned(),
        summary: app.get_summary().to_owned(),
        footer: footer(),
    }
}

} // verus!
