use p2p_videochat::ui::TerminalUI;

#[test]
fn fresh_screen_shows_only_the_prompt() {
    let ui = TerminalUI::new();
    assert_eq!(ui.redraw_text(), "\x1b[2J\x1b[1;1H> ");
}

#[test]
fn messages_appear_in_order_with_the_input_line() {
    let mut ui = TerminalUI::new();
    ui.add_message(String::from("alice has joined!"));
    ui.add_message(String::from("alice: hi"));
    ui.update_input(String::from("hel"));
    assert_eq!(ui.redraw_text(), "\x1b[2J\x1b[1;1Halice has joined!\nalice: hi\n> hel");
}

#[test]
fn updating_input_replaces_it() {
    let mut ui = TerminalUI::new();
    ui.update_input(String::from("abc"));
    ui.update_input(String::from(""));
    assert_eq!(ui.redraw_text(), "\x1b[2J\x1b[1;1H> ");
}
