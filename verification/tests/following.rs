use twitch_tui::following::{
    Event, Following, FollowingList, FollowingWidget, Key, TerminalAction, TwitchAction,
};

fn channel(login: &str) -> Following {
    Following {
        broadcaster_id: "1".to_string(),
        broadcaster_login: login.to_string(),
        broadcaster_name: login.to_uppercase(),
        followed_at: "2020".to_string(),
    }
}

fn widget(n: usize) -> FollowingWidget {
    let data = (0..n).map(|i| channel(&format!("c{i}"))).collect();
    FollowingWidget::new(FollowingList { total: n as u64, data })
}

#[test]
fn new_widget_is_unfocused_and_unselected() {
    let w = widget(2);
    assert!(!w.is_focused());
    assert_eq!(w.selected(), None);
    assert_eq!(w.position(), (1, 2));
}

#[test]
fn scrolling_stays_in_list() {
    let mut w = widget(3);
    w.next();
    assert_eq!(w.selected(), Some(0));
    w.next();
    w.next();
    w.next();
    assert_eq!(w.selected(), Some(2));
    assert_eq!(w.position(), (3, 3));
    w.previous();
    assert_eq!(w.selected(), Some(1));
    w.previous();
    w.previous();
    assert_eq!(w.selected(), Some(0));
    w.unselect();
    w.previous();
    assert_eq!(w.selected(), Some(0));
}

#[test]
fn toggle_focus_twice_is_identity() {
    let mut w = widget(1);
    w.toggle_focus();
    assert!(w.is_focused());
    w.toggle_focus();
    assert!(!w.is_focused());
}

#[test]
fn keys_drive_the_widget() {
    let mut w = widget(2);
    w.toggle_focus();
    assert_eq!(w.event(&Event::Input(Key::Char('q'))), Some(TerminalAction::Quit));
    assert_eq!(w.event(&Event::Input(Key::Enter)), None);
    assert_eq!(w.event(&Event::Input(Key::ScrollDown)), None);
    assert_eq!(w.event(&Event::Input(Key::ScrollDown)), None);
    assert_eq!(
        w.event(&Event::Input(Key::Enter)),
        Some(TerminalAction::Enter(TwitchAction::Join("c1".to_string())))
    );
    assert!(!w.is_focused());
    assert_eq!(w.selected(), None);
    w.event(&Event::Input(Key::ScrollUp));
    assert_eq!(w.selected(), Some(0));
    assert_eq!(w.event(&Event::Input(Key::Esc)), Some(TerminalAction::BackOneLayer));
    assert_eq!(w.selected(), None);
    assert!(w.is_focused());
    assert_eq!(w.event(&Event::Other), None);
    assert_eq!(w.event(&Event::Input(Key::Char('x'))), None);
    assert_eq!(w.following().data.len(), 2);
    assert_eq!(w.following().total, 2);
}

#[test]
fn widget_keeps_the_whole_list() {
    let list = FollowingList { total: 7, data: vec![channel("a")] };
    let mut w = FollowingWidget::new(list.clone());
    assert_eq!(*w.following(), list);
    w.next();
    w.event(&Event::Input(Key::Esc));
    w.event(&Event::Input(Key::ScrollDown));
    w.event(&Event::Input(Key::Enter));
    assert_eq!(*w.following(), list);
}
