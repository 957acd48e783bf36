use twitch_tui::message::{
    DataBuilder, EmoteData, MessageData, Piece, Timestamp, TwitchToTerminalAction, Word,
    PRIVATE_USE_UNICODE, ZERO_WIDTH_SPACE,
};
use twitch_tui::style::{Color, Line, Modifier, Span, Style};
use twitch_tui::theme::{FrontendConfig, Palette, Theme};

fn message(author: &str, payload: &str) -> MessageData {
    MessageData {
        time_sent: Timestamp { secs: 0, nanos: 0, offset_secs: 0 },
        author: author.to_string(),
        user_id: None,
        system: false,
        payload: payload.to_string(),
        emotes: vec![],
        message_id: None,
    }
}

fn config() -> FrontendConfig {
    FrontendConfig {
        show_datetimes: false,
        datetime_format: "%H:%M".to_string(),
        username_shown: true,
        right_align_usernames: false,
        margin: 0,
        theme: Theme::Dark,
        palette: Palette::Pastel,
    }
}

#[test]
fn to_vec_puts_author_in_front_of_text() {
    let msg = message("bob", "hello world");
    let rows = msg.to_vec(&config(), 40, None, None, Color::Green).unwrap();
    assert_eq!(
        rows,
        vec![Line {
            spans: vec![
                Span::styled("bob", Style::new().fg(Color::Green)),
                Span::raw(": "),
                Span::raw("hello world"),
            ]
        }]
    );
}

#[test]
fn to_vec_wraps_into_rows() {
    let msg = message("bob", "aaaa bbbb cccc");
    // 13 - 2 - 1 = 10 columns: "bob: aaaa" then "bbbb cccc".
    let rows = msg.to_vec(&config(), 13, None, None, Color::Green).unwrap();
    assert_eq!(rows.len(), 2);
    assert_eq!(rows[0].spans[2], Span::raw("aaaa"));
    assert_eq!(rows[1].spans, vec![Span::raw("bbbb cccc")]);
}

#[test]
fn to_vec_shows_time_and_aligns_names() {
    let mut cfg = config();
    cfg.show_datetimes = true;
    cfg.right_align_usernames = true;
    let msg = message("bob", "hi");
    let rows = msg.to_vec(&cfg, 60, None, None, Color::Green).unwrap();
    let time_style = Style::new().fg(Color::Rgb(173, 173, 184));
    assert_eq!(rows[0].spans[0], Span::styled("00:00", time_style));
    // 25 columns for names, "bob" takes 3, plus one space.
    assert_eq!(rows[0].spans[1], Span::raw(&" ".repeat(23)));
    assert_eq!(rows[0].spans[2].content, "bob");
    assert_eq!(rows[0].spans[4], Span::raw("hi"));
}

#[test]
fn to_vec_rejects_bad_time_format() {
    let mut cfg = config();
    cfg.show_datetimes = true;
    cfg.datetime_format = "%Q".to_string();
    let msg = message("bob", "hi");
    assert_eq!(msg.to_vec(&cfg, 60, None, None, Color::Green), None);
}

#[test]
fn to_vec_system_author_and_highlights() {
    let mut msg = message("System", "ping bob");
    msg.system = true;
    let rows = msg.to_vec(&config(), 60, None, Some("bob"), Color::Green).unwrap();
    let system = Style::new().fg(Color::Red).add_modifier(Modifier::bold());
    let name = Style::new()
        .fg(Color::Black)
        .bg(Color::LightBlue)
        .add_modifier(Modifier::bold());
    assert_eq!(rows[0].spans[0], Span::styled("System", system));
    let text: Vec<Span> = rows[0].spans[2..].to_vec();
    assert_eq!(text.len(), 8);
    assert_eq!(text[4], Span::raw(" "));
    assert_eq!(text[5], Span::styled("b", name));
    assert_eq!(text[7], Span::styled("b", name));
}

#[test]
fn to_vec_search_highlight_is_red_bold() {
    let msg = message("bob", "hello");
    let rows = msg.to_vec(&config(), 60, Some("hl"), None, Color::Green).unwrap();
    let red = Style::new().fg(Color::Red).add_modifier(Modifier::bold());
    assert_eq!(rows[0].spans[2], Span::styled("h", red));
    assert_eq!(rows[0].spans[3], Span::raw("e"));
    assert_eq!(rows[0].spans[4], Span::styled("l", red));
}

#[test]
fn to_vec_without_name_has_only_text() {
    let mut cfg = config();
    cfg.username_shown = false;
    let msg = message("bob", "hey");
    let rows = msg.to_vec(&cfg, 20, None, None, Color::Green).unwrap();
    assert_eq!(rows, vec![Line { spans: vec![Span::raw("hey")] }]);
}

#[test]
fn layout_rows_threads_emotes_across_lines() {
    let red_green = (Color::Red, Color::Green);
    let ph = format!("{PRIVATE_USE_UNICODE}\u{0305}");
    let lines = vec![format!("a{ZERO_WIDTH_SPACE}{ph}"), ph.clone()];
    let rows = MessageData::layout_rows(
        vec![Span::raw("x: ")],
        &lines,
        (&[], Style::new()),
        (&[], Style::new()),
        &[red_green, (Color::Blue, Color::Cyan)],
    );
    let first = Style::new().fg(Color::Red).underline_color(Color::Green);
    let second = Style::new().fg(Color::Blue).underline_color(Color::Cyan);
    assert_eq!(
        rows,
        vec![
            Line { spans: vec![Span::raw("x: "), Span::raw("a"), Span::styled(&ph, first)] },
            Line { spans: vec![Span::styled(&ph, second)] },
        ]
    );
}

#[test]
fn push_word_groups_overlays() {
    let e1 = EmoteData { id: 1, pid: 2, width: 10 };
    let e2 = EmoteData { id: 3, pid: 4, width: 30 };
    let mut words = Vec::new();
    MessageData::push_word(&mut words, "hi", None);
    MessageData::push_word(&mut words, "pog", Some((e1, false)));
    MessageData::push_word(&mut words, "hat", Some((e2, true)));
    MessageData::push_word(&mut words, "x", Some((e2, true)));
    assert_eq!(
        words,
        vec![
            Word::Text("hi".to_string()),
            Word::Emote(vec![e1, e2, e2]),
        ]
    );
    // An overlay after text starts a new emote word.
    let mut words = vec![Word::Text("a".to_string())];
    MessageData::push_word(&mut words, "hat", Some((e2, true)));
    assert_eq!(words[1], Word::Emote(vec![e2]));
    assert_eq!(MessageData::max_width(&vec![e1, e2, e1]), 30);
}

#[test]
fn assemble_payload_joins_words() {
    let mut msg = message("bob", "ignored");
    let ph = format!("{PRIVATE_USE_UNICODE}\u{0305}{PRIVATE_USE_UNICODE}");
    msg.assemble_payload(&vec![
        Piece::Text("hi".to_string()),
        Piece::Emote((Color::Red, Color::Blue), ph.clone()),
        Piece::Text("there".to_string()),
        Piece::Text("you".to_string()),
    ]);
    assert_eq!(
        msg.payload,
        format!("hi{ZERO_WIDTH_SPACE}{ph}{ZERO_WIDTH_SPACE}there you")
    );
    assert_eq!(msg.emotes, vec![(Color::Red, Color::Blue)]);
}

#[test]
fn text_words_rejoin_to_payload() {
    let mut msg = message("bob", "a  b c");
    let words = msg.payload_words();
    assert_eq!(words, vec!["a", "", "b", "c"]);
    let pieces: Vec<Piece> = words.into_iter().map(Piece::Text).collect();
    msg.assemble_payload(&pieces);
    assert_eq!(msg.payload, "a  b c");
}

#[test]
fn leading_space_is_dropped_when_rejoined() {
    let mut msg = message("bob", " a");
    let pieces: Vec<Piece> = msg.payload_words().into_iter().map(Piece::Text).collect();
    msg.assemble_payload(&pieces);
    assert_eq!(msg.payload, "a");
}

#[test]
fn author_hash_sums_bytes() {
    assert_eq!(message("human", "").author_hash(), 104 + 117 + 109 + 97 + 110);
}

#[test]
fn new_message_has_no_emotes() {
    let m = MessageData::new(Timestamp { secs: 0, nanos: 0, offset_secs: 0 }, "a".to_string(), Some("1".to_string()), false, "p".to_string(), None);
    assert_eq!(m.author, "a");
    assert_eq!(m.user_id, Some("1".to_string()));
    assert!(m.emotes.is_empty());
}

#[test]
fn data_builder_messages() {
    let b = DataBuilder::new("%H:%M");
    assert_eq!(b.datetime_format, "%H:%M");
    match DataBuilder::user(Timestamp { secs: 0, nanos: 0, offset_secs: 0 }, "u".to_string(), None, "p".to_string(), Some("m".to_string())) {
        TwitchToTerminalAction::Message(m) => {
            assert_eq!(m.author, "u");
            assert!(!m.system);
            assert_eq!(m.message_id, Some("m".to_string()));
        },
        _ => panic!("not a message"),
    }
    match b.system(Timestamp { secs: 0, nanos: 0, offset_secs: 0 }, "s".to_string()) {
        TwitchToTerminalAction::Message(m) => {
            assert_eq!(m.author, "System");
            assert!(m.system);
            assert_eq!(m.payload, "s");
        },
        _ => panic!("not a message"),
    }
    match b.twitch(Timestamp { secs: 5, nanos: 0, offset_secs: 0 }, "t".to_string()) {
        TwitchToTerminalAction::Message(m) => {
            assert_eq!(m.author, "Twitch");
            assert_eq!(m.time_sent.secs, 5);
            assert!(m.system);
        },
        _ => panic!("not a message"),
    }
}

#[test]
fn new_stores_the_time() {
    let t = Timestamp { secs: 1_700_000_000, nanos: 5, offset_secs: 3600 };
    let m = MessageData::new(t, "a".to_string(), None, true, "p".to_string(), None);
    assert_eq!(m.time_sent, t);
    assert!(m.system);
    assert!(m.emotes.is_empty());
}

#[test]
fn words_to_pieces_drops_emotes_not_shown() {
    let e = EmoteData { id: 1, pid: 2, width: 3 };
    let words = vec![
        Word::Text("a".to_string()),
        Word::Emote(vec![e]),
        Word::Emote(vec![e]),
        Word::Text("b".to_string()),
    ];
    let shown = vec![
        None,
        None,
        Some(((Color::Red, Color::Blue), "ph".to_string())),
        Some(((Color::Green, Color::Green), "ignored".to_string())),
    ];
    assert_eq!(
        MessageData::words_to_pieces(&words, &shown),
        vec![
            Piece::Text("a".to_string()),
            Piece::Emote((Color::Red, Color::Blue), "ph".to_string()),
            Piece::Text("b".to_string()),
        ]
    );
}

#[test]
fn each_placeholder_piece_gets_one_colour_pair() {
    let mut msg = message("bob", "");
    let ph = format!("{PRIVATE_USE_UNICODE}\u{0305}");
    msg.assemble_payload(&vec![
        Piece::Emote((Color::Red, Color::Blue), ph.clone()),
        Piece::Text("a".to_string()),
        Piece::Emote((Color::Green, Color::Blue), ph.clone()),
    ]);
    let placeholders = msg
        .payload
        .split(ZERO_WIDTH_SPACE)
        .filter(|s| s.starts_with(PRIVATE_USE_UNICODE))
        .count();
    assert_eq!(placeholders, msg.emotes.len());
    assert_eq!(placeholders, 2);
}
