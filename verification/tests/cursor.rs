use rustyline::line_buffer::LineBuffer;
use tui_text::cursor::{cursor_column, Cluster};
use tui_text::{get_cursor_position, TextBuffer};

/// The text and the cursor of a line of `rustyline`.
fn buffer_of(line_buffer: &LineBuffer) -> TextBuffer {
    TextBuffer::new(line_buffer.as_str().to_string(), line_buffer.pos()).unwrap()
}

fn column(text: &str, pos: usize) -> usize {
    get_cursor_position(&TextBuffer::new(text.to_string(), pos).unwrap())
}

#[test]
fn test_get_cursor_position_with_single_byte_graphemes() {
    let text = "never gonna give you up";
    let mut line_buffer = LineBuffer::with_capacity(25);
    line_buffer.insert_str(0, text);

    assert_eq!(get_cursor_position(&buffer_of(&line_buffer)), 0);
    line_buffer.move_forward(1);
    assert_eq!(get_cursor_position(&buffer_of(&line_buffer)), 1);
    line_buffer.move_forward(2);
    assert_eq!(get_cursor_position(&buffer_of(&line_buffer)), 3);
}

#[test]
fn test_get_cursor_position_with_three_byte_graphemes() {
    let text = "绝对不会放弃你";
    let mut line_buffer = LineBuffer::with_capacity(25);
    line_buffer.insert_str(0, text);

    assert_eq!(get_cursor_position(&buffer_of(&line_buffer)), 0);
    line_buffer.move_forward(1);
    assert_eq!(get_cursor_position(&buffer_of(&line_buffer)), 2);
    line_buffer.move_forward(2);
    assert_eq!(get_cursor_position(&buffer_of(&line_buffer)), 6);
}

#[test]
fn cursor_at_the_end_counts_every_cluster() {
    assert_eq!(column("never gonna give you up", 23), 23);
    assert_eq!(column("绝对不会放弃你", 21), 14);
    assert_eq!(column("", 0), 0);
}

#[test]
fn cursor_column_differs_from_bytes_and_characters() {
    // One column, two columns, one column: 1 + 3 + 1 bytes.
    let text = "a绝b";
    assert_eq!(column(text, 0), 0);
    assert_eq!(column(text, 1), 1);
    assert_eq!(column(text, 4), 3);
    assert_eq!(column(text, 5), 4);
}

#[test]
fn combining_marks_take_no_column() {
    // "e" with a combining acute accent is one cluster of three bytes.
    let text = "e\u{301}x";
    assert_eq!(column(text, 0), 0);
    assert_eq!(column(text, 3), 1);
    assert_eq!(column(text, 4), 2);
}

#[test]
fn cursor_inside_a_cluster_counts_every_cluster() {
    // Offset 1 is a character boundary at which no cluster starts.
    let text = "e\u{301}x";
    assert_eq!(column(text, 1), 2);
}

#[test]
fn clusters_of_several_characters_are_measured_whole() {
    // A carriage return and a line feed are one cluster of no width.
    let text = "a\r\nb";
    assert_eq!(column(text, 1), 1);
    assert_eq!(column(text, 3), 1);
    assert_eq!(column(text, 4), 2);
    assert_eq!(column(text, 2), 2);
}

#[test]
fn cursor_column_never_goes_down_over_cluster_boundaries() {
    let text = "ne\u{301}ver 绝对 gonna\r\ngive 放弃 up";
    let mut line_buffer = LineBuffer::with_capacity(64);
    line_buffer.insert_str(0, text);

    let mut last = get_cursor_position(&buffer_of(&line_buffer));
    let mut last_pos = line_buffer.pos();
    assert_eq!(last, 0);
    while line_buffer.move_forward(1) {
        assert!(line_buffer.pos() > last_pos);
        let next = get_cursor_position(&buffer_of(&line_buffer));
        assert!(next >= last);
        last = next;
        last_pos = line_buffer.pos();
    }
    assert_eq!(last_pos, text.len());
    assert_eq!(last, 28);
}

#[test]
fn get_cursor_position_repeated_gives_the_same() {
    let buffer = TextBuffer::new("绝对 never".to_string(), 7).unwrap();
    let first = get_cursor_position(&buffer);
    let second = get_cursor_position(&buffer);
    assert_eq!(first, second);
    assert_eq!(first, 5);
}

#[test]
fn text_buffer_wants_a_character_boundary() {
    assert!(TextBuffer::new("绝对".to_string(), 0).is_some());
    assert!(TextBuffer::new("绝对".to_string(), 1).is_none());
    assert!(TextBuffer::new("绝对".to_string(), 2).is_none());
    assert!(TextBuffer::new("绝对".to_string(), 3).is_some());
    assert!(TextBuffer::new("绝对".to_string(), 6).is_some());
    assert!(TextBuffer::new("绝对".to_string(), 7).is_none());
    assert!(TextBuffer::new(String::new(), 0).is_some());
    assert!(TextBuffer::new(String::new(), 1).is_none());
}

#[test]
fn text_buffer_gives_back_what_it_holds() {
    let buffer = TextBuffer::new("绝对 never".to_string(), 6).unwrap();
    assert_eq!(buffer.as_str(), "绝对 never");
    assert_eq!(buffer.pos(), 6);
}

#[test]
fn cursor_column_adds_the_widths_before_the_cursor() {
    let clusters = [
        Cluster { offset: 0, width: 1 },
        Cluster { offset: 1, width: 2 },
        Cluster { offset: 4, width: 0 },
        Cluster { offset: 6, width: 1 },
    ];
    assert_eq!(cursor_column(&clusters, 0), 0);
    assert_eq!(cursor_column(&clusters, 1), 1);
    assert_eq!(cursor_column(&clusters, 4), 3);
    assert_eq!(cursor_column(&clusters, 6), 3);
    assert_eq!(cursor_column(&clusters, 7), 4);
    assert_eq!(cursor_column(&clusters, 100), 4);
    // No cluster starts at 2: every cluster counts.
    assert_eq!(cursor_column(&clusters, 2), 4);
    assert_eq!(cursor_column(&[], 0), 0);
}

#[test]
fn cursor_column_stops_at_the_first_cluster_at_the_offset() {
    let clusters = [
        Cluster { offset: 0, width: 2 },
        Cluster { offset: 2, width: 5 },
        Cluster { offset: 2, width: 7 },
    ];
    assert_eq!(cursor_column(&clusters, 2), 2);
}
