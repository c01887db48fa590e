use vstd::prelude::*;

use crate::markup::{spec_close_tag, spec_markup_attribute, spec_open_tag};
use crate::term::{ansi_events, lossy_utf8, push_char, term_events, utf8_bytes, utf8_encoding, utf8_lossy, TermEvent};

verus! {

/// The SGR code table of the compact renderer: the opening and the closing
/// markup of the attribute a code switches on.
pub open spec fn spec_markup_tags(code: u16) -> Option<(&'static str, &'static str)> {
    match code {
        1 => Some(("<b>", "</b>")),
        30 => Some(("<span foreground=\"#000000\">", "</span>")),
        31 => Some(("<span foreground=\"#e01b24\">", "</span>")),
        32 => Some(("<span foreground=\"#33d17a\">", "</span>")),
        33 => Some(("<span foreground=\"#f6d32d\">", "</span>")),
        34 => Some(("<span foreground=\"#3584e4\">", "</span>")),
        35 => Some(("<span foreground=\"#d4267e\">", "</span>")),
        36 => Some(("<span foreground=\"#00f7f7\">", "</span>")),
        37 => Some(("<span foreground=\"#ffffff\">", "</span>")),
        _ => None,
    }
}

/// Maps one SGR parameter to the markup that opens and closes it.
pub fn ansi_escape_to_markup_tags(code: u16) -> (res: Option<(&'static str, &'static str)>)
    ensures
        res == spec_markup_tags(code),
{
    match code {
        1 => Some(("<b>", "</b>")),
        30 => Some(("<span foreground=\"#000000\">", "</span>")),
        31 => Some(("<span foreground=\"#e01b24\">", "</span>")),
        32 => Some(("<span foreground=\"#33d17a\">", "</span>")),
        33 => Some(("<span foreground=\"#f6d32d\">", "</span>")),
        34 => Some(("<span foreground=\"#3584e4\">", "</span>")),
        35 => Some(("<span foreground=\"#d4267e\">", "</span>")),
        36 => Some(("<span foreground=\"#00f7f7\">", "</span>")),
        37 => Some(("<span foreground=\"#ffffff\">", "</span>")),
        _ => None,
    }
}

/// One piece of rendered markup: the opening tag of a code of the table, a
/// closing tag, or a printed character.
pub enum TagToken {
    Open(u16),
    Close(&'static str),
    Text(char),
}

pub open spec fn tag_token_text(token: TagToken) -> Seq<char> {
    match token {
        TagToken::Open(code) => match spec_markup_tags(code) {
            Some((open, _)) => open@,
            None => Seq::empty(),
        },
        TagToken::Close(tag) => tag@,
        TagToken::Text(c) => seq![c],
    }
}

pub open spec fn render_tags(tokens: Seq<TagToken>) -> Seq<char>
    decreases tokens.len(),
{
    if tokens.len() == 0 {
        Seq::empty()
    } else {
        render_tags(tokens.drop_last()) + tag_token_text(tokens.last())
    }
}

/// Emits the pending closing tags, the most recent first.
pub open spec fn close_pending(stack: Seq<&'static str>) -> Seq<TagToken>
    decreases stack.len(),
{
    if stack.len() == 0 {
        Seq::empty()
    } else {
        seq![TagToken::Close(stack.last())] + close_pending(stack.drop_last())
    }
}

/// One parameter of a group that is not the lone reset `[0]`.
pub open spec fn tag_code_step(stack: Seq<&'static str>, code: u16) -> (Seq<TagToken>, Seq<&'static str>) {
    match spec_markup_tags(code) {
        Some((_, close)) => (seq![TagToken::Open(code)], stack.push(close)),
        None => (Seq::empty(), stack),
    }
}

pub open spec fn tag_codes_step(stack: Seq<&'static str>, codes: Seq<u16>) -> (Seq<TagToken>, Seq<&'static str>)
    decreases codes.len(),
{
    if codes.len() == 0 {
        (Seq::empty(), stack)
    } else {
        let (t1, s1) = tag_codes_step(stack, codes.drop_last());
        let (t2, s2) = tag_code_step(s1, codes.last());
        (t1 + t2, s2)
    }
}

/// One parameter group: the lone reset `[0]` closes everything pending,
/// any other group opens the attributes of its table codes.
pub open spec fn tag_group_step(stack: Seq<&'static str>, group: Seq<u16>) -> (Seq<TagToken>, Seq<&'static str>) {
    if group == seq![0u16] {
        (close_pending(stack), Seq::empty())
    } else {
        tag_codes_step(stack, group)
    }
}

pub open spec fn tag_groups_step(stack: Seq<&'static str>, groups: Seq<Vec<u16>>) -> (Seq<TagToken>, Seq<&'static str>)
    decreases groups.len(),
{
    if groups.len() == 0 {
        (Seq::empty(), stack)
    } else {
        let (t1, s1) = tag_groups_step(stack, groups.drop_last());
        let (t2, s2) = tag_group_step(s1, groups.last()@);
        (t1 + t2, s2)
    }
}

pub open spec fn tag_event_step(stack: Seq<&'static str>, event: TermEvent) -> (Seq<TagToken>, Seq<&'static str>) {
    match event {
        TermEvent::Print(c) => (seq![TagToken::Text(c)], stack),
        TermEvent::Csi(groups) => tag_groups_step(stack, groups@),
    }
}

pub open spec fn tag_events_step(stack: Seq<&'static str>, events: Seq<TermEvent>) -> (Seq<TagToken>, Seq<&'static str>)
    decreases events.len(),
{
    if events.len() == 0 {
        (Seq::empty(), stack)
    } else {
        let (t1, s1) = tag_events_step(stack, events.drop_last());
        let (t2, s2) = tag_event_step(s1, events.last());
        (t1 + t2, s2)
    }
}

pub proof fn lemma_render_tags_concat(a: Seq<TagToken>, b: Seq<TagToken>)
    ensures
        render_tags(a + b) == render_tags(a) + render_tags(b),
    decreases b.len(),
{
    if b.len() == 0 {
        assert(a + b =~= a);
    } else {
        lemma_render_tags_concat(a, b.drop_last());
        assert((a + b).drop_last() =~= a + b.drop_last());
        assert((a + b).last() == b.last());
    }
}

pub proof fn lemma_render_tags_single(t: TagToken)
    ensures
        render_tags(seq![t]) == tag_token_text(t),
{
    let s = seq![t];
    assert(s.drop_last() =~= Seq::<TagToken>::empty());
    assert(render_tags(s.drop_last()) == Seq::<char>::empty());
    assert(Seq::<char>::empty() + tag_token_text(t) =~= tag_token_text(t));
}

proof fn lemma_close_pending_step(stack: Seq<&'static str>, k: int)
    requires
        0 < k <= stack.len(),
    ensures
        render_tags(close_pending(stack.subrange(k - 1, stack.len() as int))) == render_tags(close_pending(stack.subrange(k, stack.len() as int))) + stack[k - 1]@,
    decreases stack.len() - k,
{
    let n = stack.len() as int;
    let whole = stack.subrange(k - 1, n);
    let rest = stack.subrange(k, n);
    if k == n {
        assert(whole =~= seq![stack[k - 1]]);
        assert(whole.drop_last() =~= Seq::<&'static str>::empty());
        assert(close_pending(whole.drop_last()) == Seq::<TagToken>::empty());
        assert(close_pending(whole) =~= seq![TagToken::Close(stack[k - 1])]);
        assert(rest =~= Seq::<&'static str>::empty());
        lemma_render_tags_single(TagToken::Close(stack[k - 1]));
        assert(render_tags(close_pending(rest)) == Seq::<char>::empty());
        assert(Seq::<char>::empty() + stack[k - 1]@ =~= stack[k - 1]@);
    } else {
        lemma_close_pending_step(stack.drop_last(), k);
        assert(whole.drop_last() =~= stack.drop_last().subrange(k - 1, n - 1));
        assert(rest.drop_last() =~= stack.drop_last().subrange(k, n - 1));
        assert(whole.last() == stack.last());
        assert(rest.last() == stack.last());
        let top = seq![TagToken::Close(stack.last())];
        lemma_render_tags_concat(top, close_pending(whole.drop_last()));
        lemma_render_tags_concat(top, close_pending(rest.drop_last()));
    }
}

/// Renders ANSI escape sequences as Pango markup, keeping the closing tags of
/// the attributes still switched on, across lines, until a reset closes them.
#[derive(Debug)]
pub struct MarkupPerform {
    buffer: String,
    close_tags: Vec<&'static str>,
}

impl Default for MarkupPerform {
    fn default() -> (res: Self)
        ensures
            res.buffer() == Seq::<char>::empty(),
            res.pending() == Seq::<&'static str>::empty(),
    {
        MarkupPerform::new()
    }
}

impl MarkupPerform {
    pub closed spec fn buffer(&self) -> Seq<char> {
        self.buffer@
    }

    pub closed spec fn pending(&self) -> Seq<&'static str> {
        self.close_tags@
    }

    pub fn new() -> (res: Self)
        ensures
            res.buffer() == Seq::<char>::empty(),
            res.pending() == Seq::<&'static str>::empty(),
    {
        MarkupPerform { buffer: String::new(), close_tags: Vec::new() }
    }

    /// Takes the rendered text out, leaving the buffer empty.
    pub fn move_out_buffer(&mut self) -> (res: String)
        ensures
            res@ == old(self).buffer(),
            final(self).buffer() == Seq::<char>::empty(),
            final(self).pending() == old(self).pending(),
    {
        let mut buffer = String::new();
        std::mem::swap(&mut self.buffer, &mut buffer);
        buffer
    }

    /// Appends a printed character.
    pub fn print(&mut self, c: char)
        ensures
            final(self).buffer() == old(self).buffer().push(c),
            final(self).pending() == old(self).pending(),
    {
        push_char(&mut self.buffer, c);
    }

    fn close_all_pending(&mut self)
        ensures
            final(self).buffer() == old(self).buffer() + render_tags(close_pending(old(self).pending())),
            final(self).pending() == Seq::<&'static str>::empty(),
    {
        let ghost orig = self.close_tags@;
        let ghost n = orig.len() as int;
        assert(orig.subrange(n, n) =~= Seq::<&'static str>::empty());
        assert(orig.take(n) =~= orig);
        assert(render_tags(close_pending(orig.subrange(n, n))) == Seq::<char>::empty());
        assert(self.buffer@ =~= old(self).buffer@ + Seq::<char>::empty());
        while self.close_tags.len() > 0
            invariant
                self.close_tags@.len() <= n,
                n == orig.len(),
                self.close_tags@ == orig.take(self.close_tags@.len() as int),
                self.buffer@ == old(self).buffer@ + render_tags(close_pending(orig.subrange(self.close_tags@.len() as int, n))),
            decreases self.close_tags@.len(),
        {
            let k = self.close_tags.len();
            let tag = self.close_tags.pop().unwrap();
            proof {
                assert(tag == orig[k - 1]);
                lemma_close_pending_step(orig, k as int);
                assert(self.close_tags@ =~= orig.take(k - 1));
            }
            self.buffer.append(tag);
        }
        assert(orig.subrange(0, n) =~= orig);
    }

    /// Applies the parameter groups of a control sequence. The final byte of
    /// the sequence is not looked at.
    pub fn csi_dispatch(&mut self, params: &Vec<Vec<u16>>)
        ensures
            final(self).buffer() == old(self).buffer() + render_tags(tag_groups_step(old(self).pending(), params@).0),
            final(self).pending() == tag_groups_step(old(self).pending(), params@).1,
    {
        let ghost s0 = self.close_tags@;
        let ghost b0 = self.buffer@;
        let mut i: usize = 0;
        assert(params@.take(0) =~= Seq::<Vec<u16>>::empty());
        assert(render_tags(Seq::<TagToken>::empty()) == Seq::<char>::empty());
        assert(b0 + Seq::<char>::empty() =~= b0);
        while i < params.len()
            invariant
                i <= params@.len(),
                self.buffer@ == b0 + render_tags(tag_groups_step(s0, params@.take(i as int)).0),
                self.close_tags@ == tag_groups_step(s0, params@.take(i as int)).1,
            decreases params@.len() - i,
        {
            let group = &params[i];
            let ghost s1 = self.close_tags@;
            let ghost b1 = self.buffer@;
            if group.len() == 1 && group[0] == 0 {
                assert(group@ =~= seq![0u16]);
                self.close_all_pending();
            } else {
                assert(group@ != seq![0u16]);
                let mut j: usize = 0;
                assert(group@.take(0) =~= Seq::<u16>::empty());
                assert(b1 + Seq::<char>::empty() =~= b1);
                while j < group.len()
                    invariant
                        j <= group@.len(),
                        self.buffer@ == b1 + render_tags(tag_codes_step(s1, group@.take(j as int)).0),
                        self.close_tags@ == tag_codes_step(s1, group@.take(j as int)).1,
                    decreases group@.len() - j,
                {
                    let ghost before = tag_codes_step(s1, group@.take(j as int));
                    let code = group[j];
                    match ansi_escape_to_markup_tags(code) {
                        Some((open, close)) => {
                            proof {
                                lemma_render_tags_single(TagToken::Open(code));
                            }
                            self.buffer.append(open);
                            self.close_tags.push(close);
                        },
                        None => {
                            assert(self.buffer@ =~= self.buffer@ + Seq::<char>::empty());
                        },
                    }
                    proof {
                        assert(group@.take(j + 1).drop_last() =~= group@.take(j as int));
                        assert(group@.take(j + 1).last() == code);
                        lemma_render_tags_concat(before.0, tag_code_step(before.1, code).0);
                    }
                    j = j + 1;
                }
                assert(group@.take(group@.len() as int) =~= group@);
            }
            proof {
                assert(params@.take(i + 1).drop_last() =~= params@.take(i as int));
                assert(params@.take(i + 1).last() == params@[i as int]);
                lemma_render_tags_concat(tag_groups_step(s0, params@.take(i as int)).0, tag_group_step(s1, group@).0);
            }
            i = i + 1;
        }
        assert(params@.take(params@.len() as int) =~= params@);
    }

    /// Applies the events of a line and tells whether every attribute switched
    /// on so far has been closed again.
    pub fn decode_events(&mut self, events: &Vec<TermEvent>) -> (finished: bool)
        ensures
            final(self).buffer() == old(self).buffer() + render_tags(tag_events_step(old(self).pending(), events@).0),
            final(self).pending() == tag_events_step(old(self).pending(), events@).1,
            finished == (final(self).pending().len() == 0),
    {
        let ghost s0 = self.close_tags@;
        let ghost b0 = self.buffer@;
        let mut i: usize = 0;
        assert(events@.take(0) =~= Seq::<TermEvent>::empty());
        assert(render_tags(Seq::<TagToken>::empty()) == Seq::<char>::empty());
        assert(b0 + Seq::<char>::empty() =~= b0);
        while i < events.len()
            invariant
                i <= events@.len(),
                self.buffer@ == b0 + render_tags(tag_events_step(s0, events@.take(i as int)).0),
                self.close_tags@ == tag_events_step(s0, events@.take(i as int)).1,
            decreases events@.len() - i,
        {
            let ghost before = tag_events_step(s0, events@.take(i as int));
            match &events[i] {
                TermEvent::Print(c) => {
                    self.print(*c);
                    proof {
                        lemma_render_tags_single(TagToken::Text(*c));
                        assert(self.buffer@ =~= b0 + render_tags(before.0) + render_tags(seq![TagToken::Text(*c)]));
                    }
                },
                TermEvent::Csi(groups) => {
                    self.csi_dispatch(groups);
                },
            }
            proof {
                assert(events@.take(i + 1).drop_last() =~= events@.take(i as int));
                assert(events@.take(i + 1).last() == events@[i as int]);
                lemma_render_tags_concat(before.0, tag_event_step(before.1, events@[i as int]).0);
            }
            i = i + 1;
        }
        assert(events@.take(events@.len() as int) =~= events@);
        self.close_tags.len() == 0
    }

    /// Decodes raw log output: the bytes are read as UTF-8 (invalid
    /// sequences replaced) and the escape sequences of that text rendered.
    /// Returns true if finished, that is, when no tag is left open.
    pub fn decode(&mut self, bytes: &Vec<u8>) -> (finished: bool)
        ensures
            ({
                let events = ansi_events(utf8_encoding(lossy_utf8(bytes@)));
                &&& final(self).buffer() == old(self).buffer() + render_tags(tag_events_step(old(self).pending(), events).0)
                &&& final(self).pending() == tag_events_step(old(self).pending(), events).1
                &&& finished == (final(self).pending().len() == 0)
            }),
    {
        let text = utf8_lossy(bytes);
        let encoded = utf8_bytes(text.as_str());
        let events = term_events(&encoded);
        self.decode_events(&events)
    }
}

/// Replays rendered tokens against the closing tags still owed: an opening tag
/// owes its closing tag, a closing tag must pay the most recent debt.
pub open spec fn owed(tokens: Seq<TagToken>, stack: Seq<&'static str>) -> Option<Seq<&'static str>>
    decreases tokens.len(),
{
    if tokens.len() == 0 {
        Some(stack)
    } else {
        match owed(tokens.drop_last(), stack) {
            None => None,
            Some(s) => match tokens.last() {
                TagToken::Open(code) => match spec_markup_tags(code) {
                    Some((_, close)) => Some(s.push(close)),
                    None => None,
                },
                TagToken::Close(tag) => if s.len() > 0 && s.last() == tag {
                    Some(s.drop_last())
                } else {
                    None
                },
                TagToken::Text(_) => Some(s),
            },
        }
    }
}

pub proof fn lemma_owed_concat(a: Seq<TagToken>, b: Seq<TagToken>, s: Seq<&'static str>)
    ensures
        owed(a + b, s) == (match owed(a, s) {
            Some(s1) => owed(b, s1),
            None => None,
        }),
    decreases b.len(),
{
    if b.len() == 0 {
        assert(a + b =~= a);
    } else {
        lemma_owed_concat(a, b.drop_last(), s);
        assert((a + b).drop_last() =~= a + b.drop_last());
        assert((a + b).last() == b.last());
    }
}

proof fn lemma_owed_close_pending(stack: Seq<&'static str>)
    ensures
        owed(close_pending(stack), stack) == Some(Seq::<&'static str>::empty()),
    decreases stack.len(),
{
    if stack.len() > 0 {
        let top = seq![TagToken::Close(stack.last())];
        assert(top.drop_last() =~= Seq::<TagToken>::empty());
        assert(owed(top.drop_last(), stack) == Some(stack));
        assert(owed(top, stack) == Some(stack.drop_last()));
        lemma_owed_close_pending(stack.drop_last());
        lemma_owed_concat(top, close_pending(stack.drop_last()), stack);
    }
}

proof fn lemma_owed_codes(stack: Seq<&'static str>, codes: Seq<u16>)
    ensures
        owed(tag_codes_step(stack, codes).0, stack) == Some(tag_codes_step(stack, codes).1),
    decreases codes.len(),
{
    if codes.len() > 0 {
        let (t1, s1) = tag_codes_step(stack, codes.drop_last());
        lemma_owed_codes(stack, codes.drop_last());
        let code = codes.last();
        match spec_markup_tags(code) {
            Some((_, close)) => {
                let one = seq![TagToken::Open(code)];
                assert(one.drop_last() =~= Seq::<TagToken>::empty());
                assert(owed(one.drop_last(), s1) == Some(s1));
            },
            None => {},
        }
        lemma_owed_concat(t1, tag_code_step(s1, code).0, stack);
    }
}

proof fn lemma_owed_groups(stack: Seq<&'static str>, groups: Seq<Vec<u16>>)
    ensures
        owed(tag_groups_step(stack, groups).0, stack) == Some(tag_groups_step(stack, groups).1),
    decreases groups.len(),
{
    if groups.len() > 0 {
        let (t1, s1) = tag_groups_step(stack, groups.drop_last());
        lemma_owed_groups(stack, groups.drop_last());
        if groups.last()@ == seq![0u16] {
            lemma_owed_close_pending(s1);
        } else {
            lemma_owed_codes(s1, groups.last()@);
        }
        lemma_owed_concat(t1, tag_group_step(s1, groups.last()@).0, stack);
    }
}

/// Every closing tag the renderer emits closes the most recently opened tag
/// still open, and the tags left open are exactly the ones it still owes.
pub proof fn lemma_tags_well_nested(stack: Seq<&'static str>, events: Seq<TermEvent>)
    ensures
        owed(tag_events_step(stack, events).0, stack) == Some(tag_events_step(stack, events).1),
    decreases events.len(),
{
    if events.len() > 0 {
        let (t1, s1) = tag_events_step(stack, events.drop_last());
        lemma_tags_well_nested(stack, events.drop_last());
        match events.last() {
            TermEvent::Print(c) => {
                let one = seq![TagToken::Text(c)];
                assert(one.drop_last() =~= Seq::<TagToken>::empty());
                assert(owed(one.drop_last(), s1) == Some(s1));
            },
            TermEvent::Csi(groups) => {
                lemma_owed_groups(s1, groups@);
            },
        }
        lemma_owed_concat(t1, tag_event_step(s1, events.last()).0, stack);
    }
}

/// The opening tag of a code of the older table, empty for other codes.
pub open spec fn table_open(code: u16) -> Seq<char> {
    match spec_markup_tags(code) {
        Some((open, _)) => open@,
        None => Seq::empty(),
    }
}

/// The closing tag of a code of the older table, empty for other codes.
pub open spec fn table_close(code: u16) -> Seq<char> {
    match spec_markup_tags(code) {
        Some((_, close)) => close@,
        None => Seq::empty(),
    }
}

/// The older table knows bold (1) and the eight foreground colors (30 to
/// 37) and nothing else; bold closes with `</b>`, each color with `</span>`,
/// and the eight colors open with eight different tags.
pub proof fn lemma_tag_table(code: u16, other: u16)
    ensures
        spec_markup_tags(code) is Some <==> (code == 1 || (30 <= code && code <= 37)),
        code == 1 ==> spec_markup_tags(code) == Some(("<b>", "</b>")),
        30 <= code <= 37 ==> table_close(code) == "</span>"@,
        30 <= code <= 37 && 30 <= other <= 37 && code != other ==> table_open(code) != table_open(other),
{
    reveal_strlit("<span foreground=\"#000000\">");
    reveal_strlit("<span foreground=\"#e01b24\">");
    reveal_strlit("<span foreground=\"#33d17a\">");
    reveal_strlit("<span foreground=\"#f6d32d\">");
    reveal_strlit("<span foreground=\"#3584e4\">");
    reveal_strlit("<span foreground=\"#d4267e\">");
    reveal_strlit("<span foreground=\"#00f7f7\">");
    reveal_strlit("<span foreground=\"#ffffff\">");
    if 30 <= code <= 37 && 30 <= other <= 37 && code != other {
        let a = table_open(code);
        let b = table_open(other);
        assert(a[20] != b[20] || a[21] != b[21] || a[22] != b[22] || a[23] != b[23] || a[24] != b[24] || a[25] != b[25]);
    }
}

/// The two renderers mark the codes they share alike: for bold and for each
/// of the eight foreground colors the older table opens and closes with the
/// markup of the attribute that the full table gives the same code, so a
/// yellow foreground (33) is a foreground span in both.
pub proof fn lemma_tag_table_agrees(code: u16)
    requires
        code == 1 || (30 <= code && code <= 37),
    ensures
        spec_markup_attribute(code) matches Some(attr) && table_open(code) == spec_open_tag(attr) && table_close(
            code,
        ) == spec_close_tag(attr),
{
    reveal_strlit("<b>");
    reveal_strlit("</b>");
    reveal_strlit("</span>");
    reveal_strlit("<span foreground=\"");
    reveal_strlit("\">");
    reveal_strlit("<span foreground=\"#000000\">");
    reveal_strlit("<span foreground=\"#e01b24\">");
    reveal_strlit("<span foreground=\"#33d17a\">");
    reveal_strlit("<span foreground=\"#f6d32d\">");
    reveal_strlit("<span foreground=\"#3584e4\">");
    reveal_strlit("<span foreground=\"#d4267e\">");
    reveal_strlit("<span foreground=\"#00f7f7\">");
    reveal_strlit("<span foreground=\"#ffffff\">");
    reveal_strlit("#000000");
    reveal_strlit("#e01b24");
    reveal_strlit("#33d17a");
    reveal_strlit("#f6d32d");
    reveal_strlit("#3584e4");
    reveal_strlit("#d4267e");
    reveal_strlit("#00f7f7");
    reveal_strlit("#ffffff");
    if code != 1 {
        let attr = spec_markup_attribute(code).unwrap();
        assert(table_open(code) =~= spec_open_tag(attr));
    }
}

} // verus!
