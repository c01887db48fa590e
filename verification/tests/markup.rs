use pods::markup::{ansi_escape_to_markup_attribute, MarkupAttribute, MarkupPerform, PlainTextPerform};
use pods::markup_tags;
use pods::term::TermEvent;

/// Collects what the escape-sequence parser reports for a line.
struct Collector {
    events: Vec<TermEvent>,
}

impl vte::Perform for Collector {
    fn print(&mut self, c: char) {
        self.events.push(TermEvent::Print(c));
    }

    fn csi_dispatch(&mut self, params: &vte::Params, _intermediates: &[u8], _ignore: bool, _action: char) {
        self.events.push(TermEvent::Csi(params.iter().map(|p| p.to_vec()).collect()));
    }
}

fn events(bytes: &[u8]) -> Vec<TermEvent> {
    let mut parser = vte::Parser::new();
    let mut collector = Collector { events: Vec::new() };
    parser.advance(&mut collector, bytes);
    collector.events
}

#[test]
fn sgr_table() {
    assert!(matches!(ansi_escape_to_markup_attribute(1), Some(MarkupAttribute::Bold)));
    assert!(matches!(ansi_escape_to_markup_attribute(31), Some(MarkupAttribute::Foreground("#e01b24"))));
    assert!(matches!(ansi_escape_to_markup_attribute(109), Some(MarkupAttribute::Background("#f66151"))));
    assert!(ansi_escape_to_markup_attribute(108).is_none());
    assert!(ansi_escape_to_markup_attribute(0).is_none());
}

#[test]
fn plain_line() {
    let mut perform = MarkupPerform::default();
    let line = perform.render_line("2024-01-01T00:00:00Z", &events(b"hello"));
    assert_eq!(line, "2024-01-01T00:00:00Z hello");
}

#[test]
fn colored_line() {
    let mut perform = MarkupPerform::new();
    let line = perform.render_line("t", &events(b"a\x1b[1;31mb\x1b[0mc"));
    assert_eq!(line, "t a<b><span foreground=\"#e01b24\">b</span></b>c");
}

#[test]
fn attributes_carry_over_lines() {
    let mut perform = MarkupPerform::new();
    let first = perform.render_line("t1", &events(b"\x1b[32mgreen"));
    assert_eq!(first, "t1 <span foreground=\"#33d17a\">green</span>");
    let second = perform.render_line("t2", &events(b"still"));
    assert_eq!(second, "t2 <span foreground=\"#33d17a\">still</span>");
    let third = perform.render_line("t3", &events(b"\x1b[0mplain"));
    assert_eq!(third, "t3 <span foreground=\"#33d17a\"></span>plain");
}

#[test]
fn foreground_reset_keeps_background_and_bold() {
    let mut perform = MarkupPerform::new();
    let line = perform.render_line("t", &events(b"\x1b[1m\x1b[41m\x1b[32mx\x1b[39my"));
    assert_eq!(
        line,
        "t <b><span background=\"#e01b24\"><span foreground=\"#33d17a\">x</span></span></b>\
         <b><span background=\"#e01b24\">y</span></b>"
    );
}

#[test]
fn background_reset() {
    let mut perform = MarkupPerform::new();
    let line = perform.render_line("t", &events(b"\x1b[44mx\x1b[49my"));
    assert_eq!(line, "t <span background=\"#3584e4\">x</span>y");
}

#[test]
fn plain_text_drops_escapes() {
    let mut perform = PlainTextPerform::default();
    perform.decode_events(&events(b"a\x1b[1;31mb\x1b[0mc"));
    assert_eq!(perform.move_out_buffer(), "abc");
    assert_eq!(perform.move_out_buffer(), "");
}

#[test]
fn markup_text_matches_plain_text() {
    let bytes: &[u8] = b"x\x1b[1my\x1b[39;49mz";
    let mut markup = MarkupPerform::new();
    let line = markup.render_line("", &events(bytes));
    let mut stripped = String::new();
    let mut in_tag = false;
    for c in line.chars().skip(1) {
        match c {
            '<' => in_tag = true,
            '>' => in_tag = false,
            c if !in_tag => stripped.push(c),
            _ => {}
        }
    }
    let mut plain = PlainTextPerform::new();
    plain.decode_events(&events(bytes));
    assert_eq!(stripped, plain.move_out_buffer());
}

#[test]
fn legacy_tags() {
    assert_eq!(markup_tags::ansi_escape_to_markup_tags(1), Some(("<b>", "</b>")));
    assert_eq!(
        markup_tags::ansi_escape_to_markup_tags(34),
        Some(("<span foreground=\"#3584e4\">", "</span>"))
    );
    assert_eq!(markup_tags::ansi_escape_to_markup_tags(40), None);
    let mut perform = markup_tags::MarkupPerform::default();
    assert!(!perform.decode_events(&events(b"\x1b[1ma")));
    assert!(perform.decode_events(&events(b"b\x1b[0m")));
    assert_eq!(perform.move_out_buffer(), "<b>ab</b>");
}

#[test]
fn raw_line_decoding() {
    let mut perform = MarkupPerform::default();
    let (line, finished) = perform.decode(&b"T1 \x1b[31mred".to_vec());
    assert_eq!(line, "T1 <span foreground=\"#e01b24\">red</span>");
    assert!(!finished);
    let (line, finished) = perform.decode_timestamped(&b"T2 still \x1b[0mdone".to_vec()).unwrap();
    assert_eq!(line, "T2 <span foreground=\"#e01b24\">still </span>done");
    assert!(finished);
    assert!(perform.decode_timestamped(&b"no-space-here".to_vec()).is_none());
    let (line, _) = perform.decode(&b"T3 caf\xc3\xa9 \xff!".to_vec());
    assert_eq!(line, "T3 caf\u{e9} \u{fffd}!");
}

#[test]
fn raw_plain_text_decoding() {
    let mut perform = PlainTextPerform::new();
    perform.decode(&b"a\x1b[1;31mb\x1b[0mc".to_vec());
    assert_eq!(perform.move_out_buffer(), "abc");
}

#[test]
fn raw_legacy_decoding() {
    let mut perform = markup_tags::MarkupPerform::new();
    assert!(!perform.decode(&b"\x1b[1ma".to_vec()));
    assert!(perform.decode(&b"b\x1b[0m".to_vec()));
    assert_eq!(perform.move_out_buffer(), "<b>ab</b>");
}
