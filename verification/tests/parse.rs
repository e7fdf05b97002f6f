use bacon::{TLine, CSI_BOLD, CSI_BOLD_RED, CSI_RESET};

fn texts(line: &TLine) -> String {
    let mut all = String::new();
    for ts in &line.strings {
        all.push_str(&ts.raw);
    }
    all
}

fn drawn(line: &TLine) -> String {
    let mut w = String::new();
    line.draw(&mut w);
    w
}

#[test]
fn bold_red_error_then_plain_text() {
    let line = TLine::from_tty("\u{1b}[1m\u{1b}[38;5;9mERROR\u{1b}[0m: bad");
    assert_eq!(line.strings.len(), 2);
    assert_eq!(line.strings[0].csi, CSI_BOLD_RED);
    assert_eq!(line.strings[0].raw, "ERROR");
    assert_eq!(line.strings[1].csi, "");
    assert_eq!(line.strings[1].raw, ": bad");
}

#[test]
fn plain_ascii_is_one_run_without_style() {
    let line = TLine::from_tty("warning: unused variable");
    assert_eq!(line.strings.len(), 1);
    assert_eq!(line.strings[0].csi, "");
    assert_eq!(line.strings[0].raw, "warning: unused variable");
}

#[test]
fn lone_reset_gives_no_run() {
    let line = TLine::from_tty("\u{1b}[0m");
    assert_eq!(line.strings.len(), 0);
}

#[test]
fn empty_input_gives_no_run() {
    let line = TLine::from_tty("");
    assert_eq!(line.strings.len(), 0);
}

#[test]
fn reset_without_parameter_is_a_reset() {
    let line = TLine::from_tty("\u{1b}[mplain");
    assert_eq!(line.strings.len(), 1);
    assert_eq!(line.strings[0].csi, "");
    assert_eq!(line.strings[0].raw, "plain");
}

#[test]
fn style_left_open_at_the_end_is_kept() {
    let line = TLine::from_tty("\u{1b}[31mred");
    assert_eq!(line.strings.len(), 1);
    assert_eq!(line.strings[0].csi, "\u{1b}[31m");
    assert_eq!(line.strings[0].raw, "red");
}

#[test]
fn style_without_text_is_a_run() {
    let line = TLine::from_tty("\u{1b}[1m\u{1b}[0m");
    assert_eq!(line.strings.len(), 1);
    assert_eq!(line.strings[0].csi, CSI_BOLD);
    assert_eq!(line.strings[0].raw, "");

    let open = TLine::from_tty("\u{1b}[1m");
    assert_eq!(open.strings.len(), 1);
    assert_eq!(open.strings[0].csi, CSI_BOLD);
    assert_eq!(open.strings[0].raw, "");
}

#[test]
fn plain_text_before_and_after_a_styled_run() {
    let line = TLine::from_tty("abc\u{1b}[1mdef\u{1b}[0mghi");
    assert_eq!(line.strings.len(), 3);
    assert_eq!(line.strings[0].csi, "");
    assert_eq!(line.strings[0].raw, "abc");
    assert_eq!(line.strings[1].csi, CSI_BOLD);
    assert_eq!(line.strings[1].raw, "def");
    assert_eq!(line.strings[2].csi, "");
    assert_eq!(line.strings[2].raw, "ghi");
}

#[test]
fn style_after_text_opens_a_new_run() {
    let line = TLine::from_tty("\u{1b}[1mbold\u{1b}[33myellow");
    assert_eq!(line.strings.len(), 2);
    assert_eq!(line.strings[0].csi, CSI_BOLD);
    assert_eq!(line.strings[0].raw, "bold");
    assert_eq!(line.strings[1].csi, "\u{1b}[33m");
    assert_eq!(line.strings[1].raw, "yellow");
}

#[test]
fn reset_splits_plain_text() {
    let line = TLine::from_tty("abc\u{1b}[0mdef");
    assert_eq!(line.strings.len(), 2);
    assert_eq!(line.strings[0].raw, "abc");
    assert_eq!(line.strings[1].raw, "def");
    assert_eq!(line.strings[0].csi, "");
    assert_eq!(line.strings[1].csi, "");
}

#[test]
fn multi_byte_characters_are_decoded() {
    let line = TLine::from_tty("h\u{e9}llo \u{6982}\u{8981}\u{1b}[1m\u{1f980}\u{1b}[0m");
    assert_eq!(line.strings.len(), 2);
    assert_eq!(line.strings[0].raw, "h\u{e9}llo \u{6982}\u{8981}");
    assert_eq!(line.strings[1].csi, CSI_BOLD);
    assert_eq!(line.strings[1].raw, "\u{1f980}");
}

#[test]
fn parameters_are_written_in_decimal() {
    let line = TLine::from_tty("\u{1b}[001;00032mx");
    assert_eq!(line.strings.len(), 1);
    assert_eq!(line.strings[0].csi, "\u{1b}[1;32m");
    assert_eq!(line.strings[0].raw, "x");
}

#[test]
fn parameters_beyond_the_sixteenth_are_dropped() {
    let line = TLine::from_tty("\u{1b}[1;2;3;4;5;6;7;8;9;10;11;12;13;14;15;16;17;18;19;20mx");
    assert_eq!(line.strings.len(), 1);
    assert_eq!(line.strings[0].csi, "\u{1b}[1;2;3;4;5;6;7;8;9;10;11;12;13;14;15;16m");
    assert_eq!(line.strings[0].raw, "x");
}

#[test]
fn intermediate_bytes_are_not_kept() {
    let line = TLine::from_tty("\u{1b}[?25hx");
    assert_eq!(line.strings.len(), 1);
    assert_eq!(line.strings[0].csi, "\u{1b}[25h");
    assert_eq!(line.strings[0].raw, "x");
}

#[test]
fn other_sequences_leave_no_trace() {
    // an operating system command, a C0 control, an escape sequence
    let line = TLine::from_tty("\u{1b}]0;title\u{7}ab\u{8}c\u{1b}7d");
    assert_eq!(line.strings.len(), 1);
    assert_eq!(line.strings[0].csi, "");
    assert_eq!(line.strings[0].raw, "abcd");
}

#[test]
fn unfinished_sequence_is_dropped() {
    let line = TLine::from_tty("ab\u{1b}[38;5");
    assert_eq!(line.strings.len(), 1);
    assert_eq!(line.strings[0].raw, "ab");
    assert_eq!(line.strings[0].csi, "");
}

#[test]
fn text_is_what_the_input_prints() {
    let line = TLine::from_tty(
        "\u{1b}[0m\u{1b}[0m\u{1b}[1m\u{1b}[32m   Compiling\u{1b}[0m bacon v1.0.0 (\u{1b}[4m/tmp\u{1b}[0m)",
    );
    assert_eq!(texts(&line), "   Compiling bacon v1.0.0 (/tmp)");
    let plain = TLine::from_tty("   Compiling bacon v1.0.0 (/tmp)");
    assert_eq!(texts(&plain), "   Compiling bacon v1.0.0 (/tmp)");
}

#[test]
fn well_formed_input_is_drawn_again() {
    let input = "\u{1b}[1m\u{1b}[38;5;9mERROR\u{1b}[0m: bad";
    let line = TLine::from_tty(input);
    assert_eq!(drawn(&line), "\u{1b}[1m\u{1b}[38;5;9mERROR\u{1b}[0m\u{1b}[0m: bad");
    assert_eq!(drawn(&line), input.replace("\u{1b}[0m", CSI_RESET));
}

#[test]
fn reset_outside_a_style_is_not_drawn() {
    let line = TLine::from_tty("\u{1b}[0m\u{1b}[0m\u{1b}[1m\u{1b}[32m   Compiling\u{1b}[0m bacon");
    assert_eq!(drawn(&line), "\u{1b}[1m\u{1b}[32m   Compiling\u{1b}[0m\u{1b}[0m bacon");
}

#[test]
fn drawing_a_drawn_line_changes_nothing_more() {
    let line = TLine::from_tty("a\u{1b}[1mb\u{1b}[0mc\u{1b}[1m\u{1b}[38;5;12md\u{1b}[0m");
    let once = drawn(&line);
    let again = drawn(&TLine::from_tty(&once));
    assert_eq!(once, "a\u{1b}[1mb\u{1b}[0m\u{1b}[0mc\u{1b}[1m\u{1b}[38;5;12md\u{1b}[0m\u{1b}[0m");
    assert_eq!(again, once);
}
