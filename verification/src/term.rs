use vstd::prelude::*;

verus! {

/// What a terminal escape-sequence parser reports while it reads a log line:
/// a printable character, or a control sequence with its parameter groups
/// (each group holds a parameter and its sub-parameters).
#[derive(Clone, Debug)]
pub enum TermEvent {
    Print(char),
    Csi(Vec<Vec<u16>>),
}

/// Appends one character to a string by calling `String::push`, which std
/// documents as appending the character to the end of the string; the
/// contract claims exactly that of the string's characters.
#[verifier::external_body]
pub(crate) fn push_char(s: &mut String, c: char)
    ensures
        final(s)@ == old(s)@.push(c),
{
    s.push(c);
}

/// The parameters of a control sequence as `vte` reports them.
#[verifier::external_type_specification]
#[verifier::external_body]
pub struct ExParams(vte::Params);

/// Collects the events that the `vte` escape-sequence parser reports.
pub(crate) struct EventCollector {
    events: Vec<TermEvent>,
}

impl vte::Perform for EventCollector {
    /// Records a printed character.
    #[verifier::external_body]
    fn print(&mut self, c: char) {
        self.events.push(TermEvent::Print(c));
    }

    /// Records a control sequence with its parameter groups.
    #[verifier::external_body]
    fn csi_dispatch(&mut self, params: &vte::Params, _intermediates: &[u8], _ignore: bool, _action: char) {
        self.events.push(TermEvent::Csi(params.iter().map(|param| param.to_vec()).collect()));
    }
}

/// The events that the `vte` parser reports for a sequence of bytes.
pub uninterp spec fn ansi_events(bytes: Seq<u8>) -> Seq<TermEvent>;

/// Runs `vte::Parser::advance` over the bytes with a fresh parser and
/// returns the printed characters and control sequences it reports, in order.
/// The contract claims only that the result is a function of the bytes.
#[verifier::external_body]
pub(crate) fn term_events(bytes: &Vec<u8>) -> (events: Vec<TermEvent>)
    ensures
        events@ == ansi_events(bytes@),
{
    let mut parser = vte::Parser::new();
    let mut collector = EventCollector { events: Vec::new() };
    parser.advance(&mut collector, bytes.as_slice());
    collector.events
}

/// The text that `String::from_utf8_lossy` makes of a sequence of bytes.
pub uninterp spec fn lossy_utf8(bytes: Seq<u8>) -> Seq<char>;

/// Calls `String::from_utf8_lossy`, which decodes UTF-8 and puts U+FFFD in
/// place of each invalid sequence. The contract claims only that the result
/// is a function of the bytes.
#[verifier::external_body]
pub(crate) fn utf8_lossy(bytes: &Vec<u8>) -> (text: String)
    ensures
        text@ == lossy_utf8(bytes@),
{
    String::from_utf8_lossy(bytes.as_slice()).into_owned()
}

/// The UTF-8 encoding of one character.
pub open spec fn utf8_char(c: char) -> Seq<u8> {
    let n = c as u32;
    if n < 0x80 {
        seq![n as u8]
    } else if n < 0x800 {
        seq![(0xC0 | (n >> 6)) as u8, (0x80 | (n & 0x3F)) as u8]
    } else if n < 0x10000 {
        seq![(0xE0 | (n >> 12)) as u8, (0x80 | ((n >> 6) & 0x3F)) as u8, (0x80 | (n & 0x3F)) as u8]
    } else {
        seq![
            (0xF0 | (n >> 18)) as u8,
            (0x80 | ((n >> 12) & 0x3F)) as u8,
            (0x80 | ((n >> 6) & 0x3F)) as u8,
            (0x80 | (n & 0x3F)) as u8,
        ]
    }
}

/// The UTF-8 encoding of a text.
pub open spec fn utf8_encoding(s: Seq<char>) -> Seq<u8>
    decreases s.len(),
{
    if s.len() == 0 {
        Seq::empty()
    } else {
        utf8_encoding(s.drop_last()) + utf8_char(s.last())
    }
}

/// Calls `str::as_bytes`, which std documents as the UTF-8 bytes of the
/// text, and copies them; the contract states that encoding.
#[verifier::external_body]
pub(crate) fn utf8_bytes(text: &str) -> (bytes: Vec<u8>)
    ensures
        bytes@ == utf8_encoding(text@),
{
    text.as_bytes().to_vec()
}

} // verus!
