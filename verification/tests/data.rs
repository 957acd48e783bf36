use twitch_tui::message::{
    sorted_contains, EmoteColors, Highlight, MessageData, Timestamp, PRIVATE_USE_UNICODE, ZERO_WIDTH_SPACE,
};
use twitch_tui::style::{Color, Span, Style};

const EMOTES_ID_PID: [EmoteColors; 3] = [
    (Color::Red, Color::Green),
    (Color::Black, Color::Cyan),
    (Color::Yellow, Color::Blue),
];

fn styles() -> [Style; 3] {
    [
        Style::new().fg(EMOTES_ID_PID[0].0).underline_color(EMOTES_ID_PID[0].1),
        Style::new().fg(EMOTES_ID_PID[1].0).underline_color(EMOTES_ID_PID[1].1),
        Style::new().fg(EMOTES_ID_PID[2].0).underline_color(EMOTES_ID_PID[2].1),
    ]
}

fn no_highlights() -> Highlight<'static> {
    (&[], Style::new())
}

/// A placeholder of `width` cells, each the placeholder character and a
/// column diacritic.
fn placeholder(width: usize) -> String {
    const DIACRITICS: [char; 4] = ['\u{0305}', '\u{030D}', '\u{030E}', '\u{0310}'];
    let mut s = String::new();
    for i in 0..width {
        s.push(PRIVATE_USE_UNICODE);
        s.push(DIACRITICS[i]);
    }
    s
}

fn assert_build_line<'s>(
    line: &'s str,
    start_index: usize,
    search_highlight: Highlight,
    username_highlight: Highlight,
    emotes: &'s [EmoteColors],
) -> (Vec<Span>, usize, &'s [EmoteColors]) {
    let owned = line.to_owned();
    let (s1, si1, e1) = {
        let mut emotes = emotes;
        let mut start_index = start_index;
        let spans = MessageData::build_line(
            owned.as_str(),
            &mut start_index,
            search_highlight,
            username_highlight,
            &mut emotes,
        );
        (spans, start_index, emotes)
    };
    let (s2, si2, e2) = {
        let mut emotes = emotes;
        let mut start_index = start_index;
        let spans = MessageData::build_line(
            line,
            &mut start_index,
            search_highlight,
            username_highlight,
            &mut emotes,
        );
        (spans, start_index, emotes)
    };
    assert_eq!(s1, s2);
    assert_eq!(si1, si2);
    assert_eq!(e1, e2);
    (s1, si1, e1)
}

#[test]
fn emote_span() {
    let styles = styles();
    let mut emotes = EMOTES_ID_PID.as_slice();

    let span = MessageData::get_emote_span("", &mut emotes);
    assert_eq!(emotes.len(), 2);
    assert_eq!(span, Span::styled("", styles[0]));

    let span = MessageData::get_emote_span("", &mut emotes);
    assert_eq!(emotes.len(), 1);
    assert_eq!(span, Span::styled("", styles[1]));

    let span = MessageData::get_emote_span("", &mut emotes);
    assert!(emotes.is_empty());
    assert_eq!(span, Span::styled("", styles[2]));
}

#[test]
fn highlight_line() {
    let styles = styles();
    let line = "foo bar baz";
    let line_len = line.len();

    let mut start_index = 1;

    let search_highlight = [6, 10].as_slice();
    let username_highlight = [3, 4, 5, 6, 7].as_slice();

    let spans = MessageData::highlight(
        line,
        &mut start_index,
        (search_highlight, styles[0]),
        (username_highlight, styles[1]),
    );

    assert_eq!(start_index, line_len + 1);

    assert_eq!(
        spans,
        vec![
            Span::raw("f"),
            Span::raw("o"),
            Span::styled("o", styles[1]),
            Span::styled(" ", styles[1]),
            Span::styled("b", styles[1]),
            Span::styled("a", styles[0]),
            Span::styled("r", styles[1]),
            Span::raw(" "),
            Span::raw("b"),
            Span::styled("a", styles[0]),
            Span::raw("z"),
        ]
    );
}

#[test]
fn build_line() {
    let line = "foo bar baz";

    let (spans, _, emotes) = assert_build_line(
        line,
        0,
        no_highlights(),
        no_highlights(),
        EMOTES_ID_PID.as_slice(),
    );

    assert_eq!(emotes, EMOTES_ID_PID);

    assert_eq!(spans, vec![Span::raw(line)]);
}

#[test]
fn build_line_with_emotes() {
    let styles = styles();
    let emote_w_1 = placeholder(1);
    let emote_w_2 = placeholder(2);
    let emote_w_3 = placeholder(3);

    let line = format!("foo{ZERO_WIDTH_SPACE}{emote_w_3}{ZERO_WIDTH_SPACE}{emote_w_1}{ZERO_WIDTH_SPACE}bar baz{ZERO_WIDTH_SPACE}{emote_w_2}");

    let (spans, _, emotes) = assert_build_line(
        &line,
        0,
        no_highlights(),
        no_highlights(),
        EMOTES_ID_PID.as_slice(),
    );

    assert!(emotes.is_empty());
    assert_eq!(
        spans,
        vec![
            Span::raw("foo"),
            Span::styled(&emote_w_3, styles[0]),
            Span::styled(&emote_w_1, styles[1]),
            Span::raw("bar baz"),
            Span::styled(&emote_w_2, styles[2]),
        ]
    );
}

#[test]
fn build_line_with_highlights() {
    let styles = styles();
    let line = "foo bar baz";

    let search_highlight = [5, 9].as_slice();
    let username_highlight = [2, 3, 4, 5, 6].as_slice();

    let (spans, start_index, emotes) = assert_build_line(
        line,
        0,
        (search_highlight, styles[0]),
        (username_highlight, styles[1]),
        EMOTES_ID_PID.as_slice(),
    );

    assert_eq!(emotes, EMOTES_ID_PID);

    assert_eq!(start_index, line.len());

    assert_eq!(
        spans,
        vec![
            Span::raw("f"),
            Span::raw("o"),
            Span::styled("o", styles[1]),
            Span::styled(" ", styles[1]),
            Span::styled("b", styles[1]),
            Span::styled("a", styles[0]),
            Span::styled("r", styles[1]),
            Span::raw(" "),
            Span::raw("b"),
            Span::styled("a", styles[0]),
            Span::raw("z"),
        ]
    );
}

#[test]
fn build_line_with_emotes_and_highlights() {
    let styles = styles();
    let emote_w_1 = placeholder(1);
    let emote_w_2 = placeholder(2);
    let emote_w_3 = placeholder(3);

    // Line corresponds to "foo{EMOTE3}{EMOTE1}bar {EMOJI} baz{EMOTE2}".
    let line =
        format!("foo{ZERO_WIDTH_SPACE}{emote_w_3}{ZERO_WIDTH_SPACE}{emote_w_1}{ZERO_WIDTH_SPACE}bar \u{1f7ea} baz{ZERO_WIDTH_SPACE}{emote_w_2}");

    // "ba" in "bar" will be highlighted with the username highlight.
    // " b" in " baz" will be highlighted with the search highlight.
    // "a" in "baz" will be highlighted with the username highlight.
    let username_highlight = MessageData::username_highlight_indices(&line, "ba");

    let search_highlight = MessageData::search_highlight_indices(&line, " b");

    let (spans, start_index, emotes) = assert_build_line(
        &line,
        0,
        (search_highlight.as_slice(), styles[0]),
        (username_highlight.as_slice(), styles[1]),
        EMOTES_ID_PID.as_slice(),
    );

    assert!(emotes.is_empty());
    assert_eq!(start_index, line.len());

    assert_eq!(
        spans,
        vec![
            Span::raw("foo"),
            Span::styled(&emote_w_3, styles[0]),
            Span::styled(&emote_w_1, styles[1]),
            Span::styled("b", styles[1]),
            Span::styled("a", styles[1]),
            Span::raw("r"),
            Span::raw(" "),
            Span::raw("\u{1f7ea}"),
            Span::styled(" ", styles[0]),
            Span::styled("b", styles[0]),
            Span::styled("a", styles[1]),
            Span::raw("z"),
            Span::styled(&emote_w_2, styles[2]),
        ]
    );
}

#[test]
fn emote_span_without_emotes_is_plain() {
    let mut emotes: &[EmoteColors] = &[];
    let span = MessageData::get_emote_span("x", &mut emotes);
    assert_eq!(span, Span::raw("x"));
    assert!(emotes.is_empty());
}

#[test]
fn highlight_far_from_highlights_is_one_span() {
    let mut start = 100;
    let spans = MessageData::highlight(
        "héllo",
        &mut start,
        ([1, 2].as_slice(), Style::new().fg(Color::Red)),
        ([500].as_slice(), Style::new().fg(Color::Blue)),
    );
    assert_eq!(spans, vec![Span::raw("héllo")]);
    assert_eq!(start, 106);
}

#[test]
fn highlight_uses_byte_offsets_of_characters() {
    // 'é' takes two bytes, so 'l' starts at byte 3.
    let red = Style::new().fg(Color::Red);
    let mut start = 0;
    let spans = MessageData::highlight("éle", &mut start, ([2].as_slice(), red), (&[], Style::new()));
    assert_eq!(spans, vec![Span::raw("é"), Span::styled("l", red), Span::raw("e")]);
    assert_eq!(start, 4);
    let joined: String = spans.iter().map(|s| s.content.as_str()).collect();
    assert_eq!(joined, "éle");
}

#[test]
fn search_wins_over_name() {
    let red = Style::new().fg(Color::Red);
    let blue = Style::new().fg(Color::Blue);
    let mut start = 0;
    let spans = MessageData::highlight("ab", &mut start, ([0].as_slice(), red), ([0, 1].as_slice(), blue));
    assert_eq!(spans, vec![Span::styled("a", red), Span::styled("b", blue)]);
}

#[test]
fn build_line_emote_without_emotes_left_is_plain_text() {
    let line = format!("a{ZERO_WIDTH_SPACE}b");
    let mut emotes: &[EmoteColors] = &[];
    let mut start = 7;
    let spans = MessageData::build_line(&line, &mut start, no_highlights(), no_highlights(), &mut emotes);
    assert_eq!(spans, vec![Span::raw(&line)]);
    assert_eq!(start, 7 + line.len());
}

#[test]
fn build_line_placeholder_start_splits() {
    let styles = styles();
    let line = format!("{}{ZERO_WIDTH_SPACE}", placeholder(1));
    let mut emotes = EMOTES_ID_PID.as_slice();
    let mut start = 2;
    let spans = MessageData::build_line(&line, &mut start, no_highlights(), no_highlights(), &mut emotes);
    assert_eq!(spans, vec![Span::styled(&placeholder(1), styles[0]), Span::raw("")]);
    assert_eq!(emotes.len(), 2);
    assert_eq!(start, 2 + line.len());
}

#[test]
fn char_to_byte_indices_points_at_first_byte() {
    // 'a' is byte 0, 'é' bytes 1..3, ' ' byte 3.
    assert_eq!(MessageData::char_to_byte_indices("aé b", &[0, 1, 2]), vec![0, 1, 3]);
    assert_eq!(MessageData::char_to_byte_indices("abc", &[]), Vec::<usize>::new());
}

#[test]
fn char_to_byte_indices_stops_on_backward_or_missing_index() {
    assert_eq!(MessageData::char_to_byte_indices("abcd", &[2, 1, 3]), vec![2]);
    assert_eq!(MessageData::char_to_byte_indices("abcd", &[9, 0]), Vec::<usize>::new());
    assert_eq!(MessageData::char_to_byte_indices("abcd", &[1, 1]), vec![1]);
}

#[test]
fn username_highlight_covers_each_occurrence() {
    assert_eq!(
        MessageData::username_highlight_indices("foo bar foo", "foo"),
        vec![0, 1, 2, 8, 9, 10]
    );
    assert_eq!(MessageData::username_highlight_indices("aaa", "aa"), vec![0, 1]);
    assert_eq!(MessageData::username_highlight_indices("abc", ""), Vec::<usize>::new());
    assert_eq!(MessageData::username_highlight_indices("ab", "abc"), Vec::<usize>::new());
    assert_eq!(MessageData::username_highlight_indices("é é", "é"), vec![0, 1, 3, 4]);
}

#[test]
fn search_highlight_of_no_match_is_empty() {
    assert_eq!(MessageData::search_highlight_indices("hello", "xyz"), Vec::<usize>::new());
    let found = MessageData::search_highlight_indices("hello world", "wd");
    assert_eq!(found, vec![6, 10]);
}

#[test]
fn search_highlights_non_ascii_characters() {
    let red = Style::new().fg(Color::Red);
    let search = MessageData::search_highlight_indices("café", "é");
    assert_eq!(search, vec![3]);
    let mut start = 0;
    let spans = MessageData::highlight("café", &mut start, (search.as_slice(), red), (&[], Style::new()));
    assert_eq!(spans[3], Span::styled("é", red));
}

#[test]
fn split_off_prefix_on_boundaries() {
    assert_eq!(MessageData::split_off_prefix("   hi", 3), Some("hi".to_string()));
    assert_eq!(MessageData::split_off_prefix("hi", 2), Some(String::new()));
    assert_eq!(MessageData::split_off_prefix("hi", 3), None);
    assert_eq!(MessageData::split_off_prefix("é", 1), None);
}

#[test]
fn total_bytes_adds_lengths() {
    let lines = vec!["ab".to_string(), "é".to_string()];
    assert_eq!(MessageData::total_bytes(&lines), Some(4));
}

#[test]
fn sorted_contains_finds_members() {
    assert!(sorted_contains(&[1, 3, 5, 7], 5));
    assert!(!sorted_contains(&[1, 3, 5, 7], 4));
    assert!(!sorted_contains(&[], 4));
}

#[test]
fn timestamp_is_plain_data() {
    let t = Timestamp { secs: 0, nanos: 0, offset_secs: 0 };
    assert_eq!(t, t.clone());
}
