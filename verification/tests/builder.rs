use bacon::{TLine, TLineBuilder, TString, CSI_BOLD, CSI_BOLD_BLUE, CSI_BOLD_RED, CSI_BOLD_YELLOW, CSI_RESET};
use vte::Perform;

fn run(line: &TLine, i: usize) -> (&str, &str) {
    (line.strings[i].csi.as_str(), line.strings[i].raw.as_str())
}

#[test]
fn builder_without_events_gives_an_empty_line() {
    let line = TLineBuilder::default().to_tline();
    assert_eq!(line.strings.len(), 0);
}

#[test]
fn printed_characters_open_a_plain_run() {
    let mut builder = TLineBuilder::default();
    builder.print('h');
    builder.print('i');
    let line = builder.to_tline();
    assert_eq!(line.strings.len(), 1);
    assert_eq!(run(&line, 0), ("", "hi"));
}

#[test]
fn consecutive_sequences_make_one_style() {
    let mut builder = TLineBuilder::default();
    builder.csi_dispatch(&[1], &[], false, 'm');
    builder.csi_dispatch(&[38, 5, 9], &[], false, 'm');
    builder.print('E');
    builder.csi_dispatch(&[0], &[], false, 'm');
    builder.print(':');
    let line = builder.to_tline();
    assert_eq!(line.strings.len(), 2);
    assert_eq!(run(&line, 0), (CSI_BOLD_RED, "E"));
    assert_eq!(run(&line, 1), ("", ":"));
}

#[test]
fn style_is_sealed_once_text_is_there() {
    let mut builder = TLineBuilder::default();
    builder.csi_dispatch(&[1], &[], false, 'm');
    builder.print('a');
    builder.csi_dispatch(&[33], &[], false, 'm');
    builder.print('b');
    let line = builder.to_tline();
    assert_eq!(line.strings.len(), 2);
    assert_eq!(run(&line, 0), (CSI_BOLD, "a"));
    assert_eq!(run(&line, 1), ("\u{1b}[33m", "b"));
}

#[test]
fn sequence_after_plain_text_opens_a_run() {
    let mut builder = TLineBuilder::default();
    builder.print('a');
    builder.csi_dispatch(&[1], &[], false, 'm');
    let line = builder.to_tline();
    assert_eq!(line.strings.len(), 2);
    assert_eq!(run(&line, 0), ("", "a"));
    assert_eq!(run(&line, 1), (CSI_BOLD, ""));
}

#[test]
fn reset_with_nothing_open_does_nothing() {
    let mut builder = TLineBuilder::default();
    builder.csi_dispatch(&[0], &[], false, 'm');
    builder.csi_dispatch(&[0], &[], false, 'm');
    let line = builder.to_tline();
    assert_eq!(line.strings.len(), 0);
}

#[test]
fn only_a_single_zero_is_a_reset() {
    let mut builder = TLineBuilder::default();
    builder.csi_dispatch(&[0, 0], &[], false, 'm');
    builder.print('x');
    builder.csi_dispatch(&[], &[], false, 'm');
    let line = builder.to_tline();
    assert_eq!(line.strings.len(), 2);
    assert_eq!(run(&line, 0), ("\u{1b}[0;0m", "x"));
    assert_eq!(run(&line, 1), ("\u{1b}[m", ""));
}

#[test]
fn reset_counts_whatever_its_final_character() {
    let mut builder = TLineBuilder::default();
    builder.csi_dispatch(&[1], &[], false, 'm');
    builder.print('x');
    builder.csi_dispatch(&[0], &[b'?'], true, 'K');
    builder.print('y');
    let line = builder.to_tline();
    assert_eq!(line.strings.len(), 2);
    assert_eq!(run(&line, 0), (CSI_BOLD, "x"));
    assert_eq!(run(&line, 1), ("", "y"));
}

#[test]
fn other_calls_change_nothing() {
    let mut builder = TLineBuilder::default();
    builder.csi_dispatch(&[1], &[], false, 'm');
    builder.execute(8);
    builder.hook(&[1], &[], false, 'q');
    builder.put(65);
    builder.unhook();
    builder.osc_dispatch(&[b"0", b"title"], true);
    builder.esc_dispatch(&[], false, b'7');
    builder.csi_dispatch(&[33], &[], false, 'm');
    builder.print('w');
    let line = builder.to_tline();
    assert_eq!(line.strings.len(), 1);
    assert_eq!(run(&line, 0), (CSI_BOLD_YELLOW, "w"));
}

#[test]
fn push_csi_writes_parameters_in_decimal() {
    let mut ts = TString::default();
    ts.push_csi(&[1], 'm');
    assert_eq!(ts.csi, "\u{1b}[1m");
    assert_eq!(ts.raw, "");
    ts.push_csi(&[38, 5, 12], 'm');
    assert_eq!(ts.csi, CSI_BOLD_BLUE);

    let mut none = TString::default();
    none.push_csi(&[], 'H');
    assert_eq!(none.csi, "\u{1b}[H");

    let mut signed = TString { csi: String::from("x"), raw: String::from("text") };
    signed.push_csi(&[-5, 0, 120], 'z');
    assert_eq!(signed.csi, "x\u{1b}[-5;0;120z");
    assert_eq!(signed.raw, "text");

    let mut wide = TString::default();
    wide.push_csi(&[i64::MIN, i64::MAX], 'm');
    assert_eq!(wide.csi, "\u{1b}[-9223372036854775808;9223372036854775807m");
}

#[test]
fn palette_is_made_of_the_sequences_it_names() {
    let mut reset = TString::default();
    reset.push_csi(&[0], 'm');
    reset.push_csi(&[0], 'm');
    assert_eq!(reset.csi, CSI_RESET);

    let mut bold = TString::default();
    bold.push_csi(&[1], 'm');
    assert_eq!(bold.csi, CSI_BOLD);

    let mut red = TString::default();
    red.push_csi(&[1], 'm');
    red.push_csi(&[38, 5, 9], 'm');
    assert_eq!(red.csi, CSI_BOLD_RED);

    let mut yellow = TString::default();
    yellow.push_csi(&[1], 'm');
    yellow.push_csi(&[33], 'm');
    assert_eq!(yellow.csi, CSI_BOLD_YELLOW);

    let mut blue = TString::default();
    blue.push_csi(&[1], 'm');
    blue.push_csi(&[38, 5, 12], 'm');
    assert_eq!(blue.csi, CSI_BOLD_BLUE);
}

#[test]
fn defaults_are_empty() {
    let ts = TString::default();
    assert_eq!(ts.csi, "");
    assert_eq!(ts.raw, "");
    let line = TLine::default();
    assert_eq!(line.strings.len(), 0);
}
