use hermes::transaction::{RequestData, ResponseData, Timestamp, Transaction, TransactionId};
use hermes::tui::app::{App, Direction, Focus};
use hermes::tui::event::{
    handle_action, handle_event, key_action, Action, KeyCode, KeyEvent, TuiEvent,
};
use hermes::tui::render::{
    body_lines, build_detail_lines, can_list, detail_panel, hdr_line, highlighted, is_binary,
    is_known_content, kv, list_item, method_color, panel_tones, sanitize, section_header,
    sniff_mime, split_value, status_bar, status_color, sub_header, text_lines, trunc, DetailPanel,
    StyledSpan, Tone, Weight,
};

fn tx(url: &str) -> Transaction {
    let request = RequestData {
        method: "GET".to_string(),
        url: url.to_string(),
        headers: vec![],
        body: vec![],
    };
    let id = TransactionId { bytes: [1; 16] };
    Transaction::begin(id, Timestamp { seconds: 0, nanos: 0 }, request)
}

fn plain(line: &[StyledSpan]) -> String {
    line.iter().map(|s| s.text.as_str()).collect()
}

fn texts(lines: &[Vec<StyledSpan>]) -> Vec<String> {
    lines.iter().map(|l| plain(l)).collect()
}

fn key(code: KeyCode, control: bool) -> KeyEvent {
    KeyEvent { code, control }
}

fn filled(n: usize) -> App {
    let mut app = App::new();
    for i in 0..n {
        app.push(tx(&format!("http://a/{}", i)));
    }
    app
}

#[test]
fn an_app_starts_empty() {
    let app = App::default();
    assert!(app.transactions.is_empty());
    assert_eq!((app.selected, app.detail_scroll, app.should_quit), (0, 0, false));
    assert_eq!(app.focus, Focus::List);
    assert!(app.selected_transaction().is_none());
    assert_eq!(highlighted(&app), None);
}

#[test]
fn the_selection_follows_the_end() {
    let mut app = filled(3);
    assert_eq!(app.selected, 2);
    app.detail_scroll = 4;
    app.push(tx("http://a/3"));
    assert_eq!((app.selected, app.detail_scroll), (3, 0));
    app.move_selection(Direction::Up);
    app.detail_scroll = 4;
    app.push(tx("http://a/4"));
    assert_eq!((app.selected, app.detail_scroll), (2, 4));
    assert_eq!(app.selected_transaction().unwrap().request.url, "http://a/2");
    assert_eq!(highlighted(&app), Some(2));
}

#[test]
fn the_selection_stays_in_the_list() {
    let mut app = filled(0);
    app.selected = usize::MAX;
    app.move_selection(Direction::Down);
    handle_action(&mut app, Action::PageDown);
    assert_eq!(app.selected, usize::MAX);
    app.selected = 0;
    app.move_selection(Direction::Down);
    app.move_selection(Direction::Up);
    assert_eq!(app.selected, 0);
    let mut app = filled(2);
    app.detail_scroll = 7;
    app.move_selection(Direction::Down);
    assert_eq!((app.selected, app.detail_scroll), (1, 7));
    app.move_selection(Direction::Up);
    assert_eq!((app.selected, app.detail_scroll), (0, 0));
    app.move_selection(Direction::Up);
    app.move_selection(Direction::Down);
    assert_eq!(app.selected, 1);
}

#[test]
fn the_detail_panel_scrolls() {
    let mut app = filled(1);
    app.scroll_detail(Direction::Up);
    assert_eq!(app.detail_scroll, 0);
    app.scroll_detail(Direction::Down);
    assert_eq!(app.detail_scroll, 1);
    app.detail_scroll = u16::MAX;
    app.scroll_detail(Direction::Down);
    assert_eq!(app.detail_scroll, u16::MAX);
    app.toggle_focus();
    assert_eq!((app.focus, app.detail_scroll), (Focus::Detail, 0));
    app.toggle_focus();
    assert_eq!(app.focus, Focus::List);
}

#[test]
fn keys_ask_for_actions() {
    assert_eq!(key_action(&key(KeyCode::Char('q'), false)), Some(Action::Quit));
    assert_eq!(key_action(&key(KeyCode::Char('c'), true)), Some(Action::Quit));
    assert_eq!(key_action(&key(KeyCode::Char('c'), false)), None);
    assert_eq!(key_action(&key(KeyCode::Up, false)), Some(Action::Up));
    assert_eq!(key_action(&key(KeyCode::Char('k'), true)), Some(Action::Up));
    assert_eq!(key_action(&key(KeyCode::Down, false)), Some(Action::Down));
    assert_eq!(key_action(&key(KeyCode::Char('j'), false)), Some(Action::Down));
    assert_eq!(key_action(&key(KeyCode::Tab, false)), Some(Action::ToggleFocus));
    assert_eq!(key_action(&key(KeyCode::PageUp, false)), Some(Action::PageUp));
    assert_eq!(key_action(&key(KeyCode::PageDown, false)), Some(Action::PageDown));
    assert_eq!(key_action(&key(KeyCode::Char('x'), false)), None);
    assert_eq!(key_action(&key(KeyCode::Other, false)), None);
}

#[test]
fn pages_are_ten_rows() {
    let mut app = filled(25);
    handle_action(&mut app, Action::PageUp);
    assert_eq!(app.selected, 14);
    handle_action(&mut app, Action::PageUp);
    handle_action(&mut app, Action::PageUp);
    assert_eq!(app.selected, 0);
    handle_action(&mut app, Action::PageDown);
    assert_eq!(app.selected, 10);
    handle_action(&mut app, Action::PageDown);
    handle_action(&mut app, Action::PageDown);
    assert_eq!(app.selected, 24);
    handle_action(&mut app, Action::ToggleFocus);
    handle_action(&mut app, Action::PageDown);
    handle_action(&mut app, Action::Down);
    handle_action(&mut app, Action::Up);
    assert_eq!((app.selected, app.detail_scroll), (24, 10));
    handle_action(&mut app, Action::PageUp);
    assert_eq!(app.detail_scroll, 0);
}

#[test]
fn events_are_handled() {
    let mut app = App::new();
    handle_event(&mut app, TuiEvent::NewTransaction(tx("http://a/")));
    handle_event(&mut app, TuiEvent::Resize);
    handle_event(&mut app, TuiEvent::Tick);
    handle_event(&mut app, TuiEvent::Key(key(KeyCode::Other, false)));
    assert_eq!(app.transactions.len(), 1);
    assert!(!app.should_quit);
    handle_event(&mut app, TuiEvent::Key(key(KeyCode::Char('q'), false)));
    assert!(app.should_quit);
}

#[test]
fn control_characters_are_replaced() {
    assert_eq!(sanitize("a\tb\x1b[2Jc\u{7f}\u{9b}\u{a0}é\r\n\0"), "a b·[2Jc··\u{a0}é···");
    assert_eq!(sanitize(&sanitize("\x1b\t")), "· ");
    let mut n: u32 = 0;
    while n < 0x300 {
        if let Some(c) = char::from_u32(n) {
            assert!(!sanitize(&c.to_string()).contains(|c: char| c.is_control()), "{}", n);
        }
        n += 1;
    }
}

#[test]
fn long_values_are_split_and_cut() {
    assert_eq!(split_value("", 30), vec![""]);
    assert_eq!(split_value("", 1), vec![""]);
    assert_eq!(split_value("ééééé", 2), vec!["éé", "éé", "é"]);
    assert_eq!(split_value("abcdefghij", 5), vec!["abcde", "fghij"]);
    assert_eq!(split_value(&"a".repeat(25), 0), vec!["a".repeat(20), "a".repeat(5)]);
    assert_eq!(split_value(&"a".repeat(60), 30), vec!["a".repeat(30), "a".repeat(30)]);
    assert_eq!(trunc("abcdef".to_string(), 4), "abc…");
    assert_eq!(trunc("abcd".to_string(), 4), "abcd");
    assert_eq!(trunc("éééééé".to_string(), 5), "éééé…");
    assert_eq!(trunc("abcdef".to_string(), 3), "ab…");
    assert_eq!(trunc("abcdef".to_string(), 1), "…");
    assert_eq!(trunc("a".to_string(), 1), "a");
    assert_eq!(trunc("abcdef".to_string(), 0), "abcdef");
}

#[test]
fn methods_and_statuses_have_colours() {
    assert_eq!(method_color("get"), Tone::MethodGet);
    assert_eq!(method_color("POST"), Tone::MethodPost);
    assert_eq!(method_color("PUT"), Tone::MethodPut);
    assert_eq!(method_color("Patch"), Tone::MethodPut);
    assert_eq!(method_color("DELETE"), Tone::MethodDelete);
    assert_eq!(method_color("HEAD"), Tone::MethodOther);
    assert_eq!(Tone::MethodGet.rgb(), (143, 220, 151));
    assert_eq!(Tone::MethodOther.rgb(), (200, 120, 255));
    for (code, tone) in [
        (199, Tone::StatusPending), (200, Tone::StatusSuccess), (299, Tone::StatusSuccess),
        (300, Tone::StatusRedirect), (404, Tone::StatusClientError),
        (599, Tone::StatusServerError), (600, Tone::StatusPending), (0, Tone::StatusPending),
    ] {
        assert_eq!(status_color(code), tone);
    }
    assert_eq!(panel_tones(true), (Tone::BorderFocus, Tone::BorderFocus));
    assert_eq!(panel_tones(false), (Tone::Border, Tone::Dim));
}

#[test]
fn lines_of_the_detail_panel() {
    let line = section_header("REQUEST");
    assert_eq!((line[0].text.as_str(), line[0].weight), ("REQUEST", Weight::Bold));
    assert_eq!(sub_header("Body")[0].fg, Tone::Dim);
    let line = kv("URL", "a\x1bb", Tone::Text);
    assert_eq!(line[0].text, "URL       ");
    assert_eq!(line[1].text, "a·b");
    let line = hdr_line("Access-Control-Expose-Headers", &"v".repeat(50), 40);
    assert_eq!(line[0].text, "Access-Control-Expose-Hea…");
    assert_eq!(line[1].text, format!("{}…", "v".repeat(12)));
    let line = hdr_line("A", &"v".repeat(50), 0);
    assert_eq!(line[0].text, format!("{:<26}", "A"));
    assert_eq!(line[1].text, format!("{}…", "v".repeat(9)));
}

#[test]
fn binary_content_is_told_apart() {
    assert!(!is_binary(b""));
    assert!(!is_binary(b"plain text\r\n\twith tabs"));
    assert!(is_binary(b"a\0b"));
    let mut sample = vec![b'a'; 1000];
    sample[600..700].fill(1);
    assert!(!is_binary(&sample));
    sample[999] = 0;
    assert!(is_binary(&sample));
    let mut twenty = vec![b'a'; 20];
    twenty[0] = 0x1b;
    assert!(!is_binary(&twenty));
    twenty[1] = 0x7f;
    assert!(is_binary(&twenty));
    assert!(!is_binary("éééé".as_bytes()));
}

#[test]
fn kinds_are_sniffed() {
    assert_eq!(sniff_mime(b"\x89PNG\r\n"), "image/png");
    assert_eq!(sniff_mime(b"\xff\xd8\xff\xe0"), "image/jpeg");
    assert_eq!(sniff_mime(b"GIF89a"), "image/gif");
    assert_eq!(sniff_mime(b"RIFFxxxx"), "image/webp");
    assert_eq!(sniff_mime(b"\x1f\x8b"), "application/gzip");
    assert_eq!(sniff_mime(b"PK\x03\x04"), "application/zip");
    assert_eq!(sniff_mime(b"%PDF-1"), "application/pdf");
    assert_eq!(sniff_mime(b"\x89PN"), "binary");
    assert_eq!(sniff_mime(b""), "binary");
}

#[test]
fn known_content_is_told_apart() {
    for content in [
        &b"\x89PNG"[..], b"\xff\xd8\xff", b"GIF87a", b"GIF89a", b"RIFF....WEBP", b"\x1f\x8b",
        b"PK\x03\x04", b"%PDF-",
    ] {
        assert!(is_known_content(content));
        assert!(!is_known_content(&content[..content.len() - 1]));
        assert!(!is_known_content(&[b" ", content].concat()));
    }
    assert!(!is_known_content(b""));
    assert!(!is_known_content(b"RIFF...WEBP."));
    assert!(!is_known_content(b"FIRE....WEBP"));
}

#[test]
fn bodies_become_lines() {
    let lines = body_lines(b"\x89PNG\0\0", 80);
    assert_eq!(texts(&lines), vec!["(image/png — 6 bytes, not rendered)"]);
    assert_eq!(lines[0][0].weight, Weight::Italic);
    assert_eq!(
        texts(&body_lines(b"%PDF-1.4", 80)),
        vec!["(application/pdf — 8 bytes, not rendered)"]
    );
    assert_eq!(
        texts(&body_lines(b"GIF89a and more", 80)),
        vec!["(image/gif — 15 bytes, not rendered)"]
    );
    assert_eq!(
        texts(&body_lines(b"RIFF1234WEBPVP8 ", 80)),
        vec!["(image/webp — 16 bytes, not rendered)"]
    );
    for text in ["GIFT", "GIF88a", "RIFFraff", "RIFF and WEBPs", "%PDF", "PK", "BM"] {
        assert_eq!(texts(&body_lines(text.as_bytes(), 80)), vec![text]);
    }
    assert_eq!(
        texts(&body_lines(b"a\x1b\n\nb\xff and enough of plain text", 80)),
        vec!["a·", "", "b\u{fffd} and enough of plain text"]
    );
    assert_eq!(texts(&text_lines("", 80)), vec!["(empty body)"]);
    assert_eq!(
        texts(&text_lines(&"x".repeat(50), 10)),
        vec!["x".repeat(40), "x".repeat(10)]
    );
    assert_eq!(texts(&text_lines(&"x".repeat(50), 50)), vec!["x".repeat(48), "xx".to_string()]);
    assert_eq!(text_lines(&"x".repeat(401), 500).len(), 3);
    let many = "l\n".repeat(302);
    let lines = text_lines(&many, 80);
    assert_eq!(lines.len(), 301);
    assert_eq!(
        plain(&lines[300]),
        "… 2 more lines — scroll or use `hermes replay` to view full body"
    );
    assert_eq!(text_lines(&"l\n".repeat(300), 80).len(), 300);
}

#[test]
fn a_transaction_is_shown_in_detail() {
    let mut t = tx("http://a/b");
    t.request.headers = vec![("Host".to_string(), "a".to_string())];
    t.request.body = b"in".to_vec();
    assert_eq!(
        texts(&build_detail_lines(&t, 80)),
        vec![
            "REQUEST".to_string(),
            "Method    GET".to_string(),
            "URL       http://a/b".to_string(),
            "".to_string(),
            "Headers".to_string(),
            format!("{:<26}a", "Host"),
            "".to_string(),
            "Body".to_string(),
            "in".to_string(),
            "".to_string(),
            "RESPONSE".to_string(),
            "pending…".to_string(),
        ]
    );
    let mut t = tx(&format!("http://a/{}", "x".repeat(30)));
    t.response = Some(ResponseData {
        status: 200,
        headers: vec![("A".to_string(), "b".to_string())],
        body: b"out".to_vec(),
    });
    t.duration_ms = Some(1500);
    assert_eq!(
        texts(&build_detail_lines(&t, 0)),
        vec![
            "REQUEST".to_string(),
            "Method    GET".to_string(),
            format!("URL       http://a/{}", "x".repeat(11)),
            format!("URL       {}", "x".repeat(19)),
            "".to_string(),
            "RESPONSE".to_string(),
            "Status    200".to_string(),
            "Duration  1500 ms".to_string(),
            "".to_string(),
            "Headers".to_string(),
            format!("{:<26}b", "A"),
            "".to_string(),
            "Body".to_string(),
            "out".to_string(),
        ]
    );
}

#[test]
fn the_detail_panel_shows_the_selection() {
    match detail_panel(&App::new(), 80, 20) {
        DetailPanel::Remark(text) => assert_eq!(
            text,
            "\nNo transactions captured yet.\nBrowse through the proxy to see traffic."
        ),
        DetailPanel::Lines { .. } => panic!("lines of nothing"),
    }
    let mut app = filled(1);
    app.detail_scroll = 2;
    match detail_panel(&app, 80, 6) {
        DetailPanel::Lines { lines, scroll, scrollbar } => {
            assert_eq!(lines.len(), 6);
            assert_eq!(scroll, 2);
            assert_eq!(scrollbar, None);
        }
        DetailPanel::Remark(_) => panic!("nothing shown"),
    }
    match detail_panel(&app, 80, 5) {
        DetailPanel::Lines { scrollbar, .. } => assert_eq!(scrollbar, Some((6, 2))),
        DetailPanel::Remark(_) => panic!("nothing shown"),
    }
}

#[test]
fn rows_show_a_transaction() {
    let mut t = tx("https://example.com/a/rather/long/path");
    assert!(can_list(&t));
    let row = list_item(&t, "");
    assert_eq!(plain(&row), "GET   ··· example.com/a/rather/long/p…");
    assert_eq!(row[0].fg, Tone::MethodGet);
    assert_eq!(row[1].fg, Tone::StatusPending);
    t.response = Some(ResponseData { status: 404, headers: vec![], body: vec![] });
    t.duration_ms = Some(999);
    t.request.method = "OPT\x1bIONS".to_string();
    assert_eq!(plain(&list_item(&t, "")), "OPT·IONS 404 example.com/a/rather/long/p… 999ms");
    t.duration_ms = Some(1500);
    t.request.url = "http://h/x\x1b".to_string();
    assert_eq!(plain(&list_item(&t, "1.5")), "OPT·IONS 404 h/x· 1.5s");
    let long = tx(&format!("http://{}/x", "h".repeat(40)));
    assert_eq!(plain(&list_item(&long, "")), format!("GET   ··· {}…", "h".repeat(40)));
}

#[test]
fn a_path_is_cut_between_characters() {
    assert!(can_list(&tx("http://h/é")));
    let even = tx(&format!("http://hh/{}", "é".repeat(20)));
    let odd = tx(&format!("http://h/{}", "é".repeat(20)));
    assert_ne!(can_list(&even), can_list(&odd));
    let fits = if can_list(&even) { even } else { odd };
    assert!(plain(&list_item(&fits, "")).ends_with("é…"));
}

#[test]
fn the_status_bar_counts() {
    let mut app = filled(2);
    let bar = status_bar(&app);
    assert_eq!(plain(&bar), " HERMES   2 captured  ↑↓/jk  TAB→detail  q quit ");
    assert_eq!((bar[0].fg, bar[0].bg), (Tone::Background, Some(Tone::BorderFocus)));
    app.toggle_focus();
    assert_eq!(plain(&status_bar(&app)), " HERMES   2 captured  ↑↓/jk  TAB→list  q quit ");
}
