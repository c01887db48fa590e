use vstd::prelude::*;

use crate::term::{ansi_events, lossy_utf8, push_char, term_events, utf8_bytes, utf8_encoding, utf8_lossy, TermEvent};
use crate::text::{spec_split_once, split_once};

verus! {

/// A text attribute that a log line can switch on with an SGR code.
#[derive(Clone, Copy, Debug)]
pub enum MarkupAttribute {
    Bold,
    Foreground(&'static str),
    Background(&'static str),
}

/// The SGR code table: which attribute a code switches on, if any.
pub open spec fn spec_markup_attribute(code: u16) -> Option<MarkupAttribute> {
    match code {
        1 => Some(MarkupAttribute::Bold),
        30 => Some(MarkupAttribute::Foreground("#000000")),
        31 => Some(MarkupAttribute::Foreground("#e01b24")),
        32 => Some(MarkupAttribute::Foreground("#33d17a")),
        33 => Some(MarkupAttribute::Foreground("#f6d32d")),
        34 => Some(MarkupAttribute::Foreground("#3584e4")),
        35 => Some(MarkupAttribute::Foreground("#d4267e")),
        36 => Some(MarkupAttribute::Foreground("#00f7f7")),
        37 => Some(MarkupAttribute::Foreground("#ffffff")),
        40 => Some(MarkupAttribute::Background("#000000")),
        41 => Some(MarkupAttribute::Background("#e01b24")),
        42 => Some(MarkupAttribute::Background("#33d17a")),
        43 => Some(MarkupAttribute::Background("#f6d32d")),
        44 => Some(MarkupAttribute::Background("#3584e4")),
        45 => Some(MarkupAttribute::Background("#d4267e")),
        46 => Some(MarkupAttribute::Background("#00f7f7")),
        47 => Some(MarkupAttribute::Background("#ffffff")),
        90 => Some(MarkupAttribute::Foreground("#3d3846")),
        91 => Some(MarkupAttribute::Foreground("#f66151")),
        92 => Some(MarkupAttribute::Foreground("#8ff0a4")),
        93 => Some(MarkupAttribute::Foreground("#f9f06b")),
        94 => Some(MarkupAttribute::Foreground("#99c1f1")),
        95 => Some(MarkupAttribute::Foreground("#c061cb")),
        96 => Some(MarkupAttribute::Foreground("#33c7de")),
        97 => Some(MarkupAttribute::Foreground("#f66151")),
        100 => Some(MarkupAttribute::Background("#3d3846")),
        101 => Some(MarkupAttribute::Background("#f66151")),
        102 => Some(MarkupAttribute::Background("#8ff0a4")),
        103 => Some(MarkupAttribute::Background("#f9f06b")),
        104 => Some(MarkupAttribute::Background("#99c1f1")),
        105 => Some(MarkupAttribute::Background("#c061cb")),
        106 => Some(MarkupAttribute::Background("#33c7de")),
        109 => Some(MarkupAttribute::Background("#f66151")),
        _ => None,
    }
}

/// Maps one SGR parameter to the attribute it switches on.
pub fn ansi_escape_to_markup_attribute(code: u16) -> (res: Option<MarkupAttribute>)
    ensures
        res == spec_markup_attribute(code),
{
    match code {
        1 => Some(MarkupAttribute::Bold),
        30 => Some(MarkupAttribute::Foreground("#000000")),
        31 => Some(MarkupAttribute::Foreground("#e01b24")),
        32 => Some(MarkupAttribute::Foreground("#33d17a")),
        33 => Some(MarkupAttribute::Foreground("#f6d32d")),
        34 => Some(MarkupAttribute::Foreground("#3584e4")),
        35 => Some(MarkupAttribute::Foreground("#d4267e")),
        36 => Some(MarkupAttribute::Foreground("#00f7f7")),
        37 => Some(MarkupAttribute::Foreground("#ffffff")),
        40 => Some(MarkupAttribute::Background("#000000")),
        41 => Some(MarkupAttribute::Background("#e01b24")),
        42 => Some(MarkupAttribute::Background("#33d17a")),
        43 => Some(MarkupAttribute::Background("#f6d32d")),
        44 => Some(MarkupAttribute::Background("#3584e4")),
        45 => Some(MarkupAttribute::Background("#d4267e")),
        46 => Some(MarkupAttribute::Background("#00f7f7")),
        47 => Some(MarkupAttribute::Background("#ffffff")),
        90 => Some(MarkupAttribute::Foreground("#3d3846")),
        91 => Some(MarkupAttribute::Foreground("#f66151")),
        92 => Some(MarkupAttribute::Foreground("#8ff0a4")),
        93 => Some(MarkupAttribute::Foreground("#f9f06b")),
        94 => Some(MarkupAttribute::Foreground("#99c1f1")),
        95 => Some(MarkupAttribute::Foreground("#c061cb")),
        96 => Some(MarkupAttribute::Foreground("#33c7de")),
        97 => Some(MarkupAttribute::Foreground("#f66151")),
        100 => Some(MarkupAttribute::Background("#3d3846")),
        101 => Some(MarkupAttribute::Background("#f66151")),
        102 => Some(MarkupAttribute::Background("#8ff0a4")),
        103 => Some(MarkupAttribute::Background("#f9f06b")),
        104 => Some(MarkupAttribute::Background("#99c1f1")),
        105 => Some(MarkupAttribute::Background("#c061cb")),
        106 => Some(MarkupAttribute::Background("#33c7de")),
        109 => Some(MarkupAttribute::Background("#f66151")),
        _ => None,
    }
}

/// The markup that switches an attribute on.
pub open spec fn spec_open_tag(attr: MarkupAttribute) -> Seq<char> {
    match attr {
        MarkupAttribute::Bold => "<b>"@,
        MarkupAttribute::Foreground(value) => "<span foreground=\""@ + value@ + "\">"@,
        MarkupAttribute::Background(value) => "<span background=\""@ + value@ + "\">"@,
    }
}

/// The markup that switches an attribute off.
pub open spec fn spec_close_tag(attr: MarkupAttribute) -> Seq<char> {
    match attr {
        MarkupAttribute::Bold => "</b>"@,
        _ => "</span>"@,
    }
}

/// Which color an SGR reset code (39 or 49) switches off.
#[derive(Clone, Copy, Debug)]
pub enum ResetKind {
    Foreground,
    Background,
}

/// Whether an attribute stays active through a reset of the given kind.
pub open spec fn survives(kind: ResetKind, attr: MarkupAttribute) -> bool {
    match kind {
        ResetKind::Foreground => !(attr matches MarkupAttribute::Foreground(_)),
        ResetKind::Background => !(attr matches MarkupAttribute::Background(_)),
    }
}

/// The attributes that stay active through a reset, in their order.
pub open spec fn kept(attrs: Seq<MarkupAttribute>, kind: ResetKind) -> Seq<MarkupAttribute> {
    attrs.filter(|a: MarkupAttribute| survives(kind, a))
}

impl MarkupAttribute {
    pub fn open_tag(&self) -> (tag: String)
        ensures
            tag@ == spec_open_tag(*self),
    {
        match self {
            MarkupAttribute::Bold => String::from_str("<b>"),
            MarkupAttribute::Foreground(value) => {
                let mut tag = String::from_str("<span foreground=\"");
                tag.append(value);
                tag.append("\">");
                tag
            },
            MarkupAttribute::Background(value) => {
                let mut tag = String::from_str("<span background=\"");
                tag.append(value);
                tag.append("\">");
                tag
            },
        }
    }

    pub fn close_tag(&self) -> (tag: &'static str)
        ensures
            tag@ == spec_close_tag(*self),
    {
        match self {
            MarkupAttribute::Bold => "</b>",
            _ => "</span>",
        }
    }
}

/// One piece of a rendered log line: an attribute switched on, an attribute
/// switched off, or a printed character.
pub enum MarkupToken {
    Open(MarkupAttribute),
    Close(MarkupAttribute),
    Text(char),
}

pub open spec fn token_text(token: MarkupToken) -> Seq<char> {
    match token {
        MarkupToken::Open(attr) => spec_open_tag(attr),
        MarkupToken::Close(attr) => spec_close_tag(attr),
        MarkupToken::Text(c) => seq![c],
    }
}

/// The text of a token sequence.
pub open spec fn render(tokens: Seq<MarkupToken>) -> Seq<char>
    decreases tokens.len(),
{
    if tokens.len() == 0 {
        Seq::empty()
    } else {
        render(tokens.drop_last()) + token_text(tokens.last())
    }
}

/// Switches every attribute on, in order.
pub open spec fn open_all(attrs: Seq<MarkupAttribute>) -> Seq<MarkupToken>
    decreases attrs.len(),
{
    if attrs.len() == 0 {
        Seq::empty()
    } else {
        open_all(attrs.drop_last()).push(MarkupToken::Open(attrs.last()))
    }
}

/// Switches every attribute off, the last one first.
pub open spec fn close_all(attrs: Seq<MarkupAttribute>) -> Seq<MarkupToken>
    decreases attrs.len(),
{
    if attrs.len() == 0 {
        Seq::empty()
    } else {
        seq![MarkupToken::Close(attrs.last())] + close_all(attrs.drop_last())
    }
}

/// What one SGR parameter emits and which attributes stay active after it:
/// 0 switches everything off, 39 and 49 switch off the foreground and the
/// background colors (closing all and reopening the others), and a code of the
/// table switches its attribute on.
pub open spec fn code_step(attrs: Seq<MarkupAttribute>, code: u16) -> (Seq<MarkupToken>, Seq<MarkupAttribute>) {
    if code == 0 {
        (close_all(attrs), Seq::empty())
    } else if code == 39 {
        (close_all(attrs) + open_all(kept(attrs, ResetKind::Foreground)), kept(attrs, ResetKind::Foreground))
    } else if code == 49 {
        (close_all(attrs) + open_all(kept(attrs, ResetKind::Background)), kept(attrs, ResetKind::Background))
    } else {
        match spec_markup_attribute(code) {
            Some(attr) => (seq![MarkupToken::Open(attr)], attrs.push(attr)),
            None => (Seq::empty(), attrs),
        }
    }
}

/// Folds `code_step` over a sequence of parameters.
pub open spec fn codes_step(attrs: Seq<MarkupAttribute>, codes: Seq<u16>) -> (Seq<MarkupToken>, Seq<MarkupAttribute>)
    decreases codes.len(),
{
    if codes.len() == 0 {
        (Seq::empty(), attrs)
    } else {
        let (t1, a1) = codes_step(attrs, codes.drop_last());
        let (t2, a2) = code_step(a1, codes.last());
        (t1 + t2, a2)
    }
}

/// Folds over the parameter groups of one control sequence.
pub open spec fn groups_step(attrs: Seq<MarkupAttribute>, groups: Seq<Vec<u16>>) -> (Seq<MarkupToken>, Seq<MarkupAttribute>)
    decreases groups.len(),
{
    if groups.len() == 0 {
        (Seq::empty(), attrs)
    } else {
        let (t1, a1) = groups_step(attrs, groups.drop_last());
        let (t2, a2) = codes_step(a1, groups.last()@);
        (t1 + t2, a2)
    }
}

pub open spec fn event_step(attrs: Seq<MarkupAttribute>, event: TermEvent) -> (Seq<MarkupToken>, Seq<MarkupAttribute>) {
    match event {
        TermEvent::Print(c) => (seq![MarkupToken::Text(c)], attrs),
        TermEvent::Csi(groups) => groups_step(attrs, groups@),
    }
}

/// Folds over the events of a log line.
pub open spec fn events_step(attrs: Seq<MarkupAttribute>, events: Seq<TermEvent>) -> (Seq<MarkupToken>, Seq<MarkupAttribute>)
    decreases events.len(),
{
    if events.len() == 0 {
        (Seq::empty(), attrs)
    } else {
        let (t1, a1) = events_step(attrs, events.drop_last());
        let (t2, a2) = event_step(a1, events.last());
        (t1 + t2, a2)
    }
}

/// The tokens of one decoded line: the attributes carried over from earlier
/// lines are reopened, the events are applied, and whatever is still active
/// is closed at the end.
pub open spec fn line_tokens(attrs: Seq<MarkupAttribute>, events: Seq<TermEvent>) -> Seq<MarkupToken> {
    let (tokens, after) = events_step(attrs, events);
    open_all(attrs) + tokens + close_all(after)
}

pub proof fn lemma_render_concat(a: Seq<MarkupToken>, b: Seq<MarkupToken>)
    ensures
        render(a + b) == render(a) + render(b),
    decreases b.len(),
{
    if b.len() == 0 {
        assert(a + b =~= a);
    } else {
        lemma_render_concat(a, b.drop_last());
        assert((a + b).drop_last() =~= a + b.drop_last());
        assert((a + b).last() == b.last());
    }
}

pub proof fn lemma_close_all_concat(a: Seq<MarkupAttribute>, b: Seq<MarkupAttribute>)
    ensures
        close_all(a + b) == close_all(b) + close_all(a),
    decreases b.len(),
{
    if b.len() == 0 {
        assert(a + b =~= a);
        assert(close_all(b) + close_all(a) =~= close_all(a));
    } else {
        lemma_close_all_concat(a, b.drop_last());
        assert((a + b).drop_last() =~= a + b.drop_last());
        assert((a + b).last() == b.last());
        assert(close_all(a + b) =~= close_all(b) + close_all(a));
    }
}

pub proof fn lemma_open_all_concat(a: Seq<MarkupAttribute>, b: Seq<MarkupAttribute>)
    ensures
        open_all(a + b) == open_all(a) + open_all(b),
    decreases b.len(),
{
    if b.len() == 0 {
        assert(a + b =~= a);
        assert(open_all(a) + open_all(b) =~= open_all(a));
    } else {
        lemma_open_all_concat(a, b.drop_last());
        assert((a + b).drop_last() =~= a + b.drop_last());
        assert((a + b).last() == b.last());
        assert(open_all(a + b) =~= open_all(a) + open_all(b));
    }
}

pub proof fn lemma_close_one(x: MarkupAttribute)
    ensures
        close_all(seq![x]) == seq![MarkupToken::Close(x)],
        render(seq![MarkupToken::Close(x)]) == spec_close_tag(x),
{
    let s = seq![x];
    assert(s.drop_last() =~= Seq::<MarkupAttribute>::empty());
    assert(close_all(s.drop_last()) == Seq::<MarkupToken>::empty());
    assert(close_all(s) =~= seq![MarkupToken::Close(x)]);
    lemma_render_single(MarkupToken::Close(x));
}

/// Closing the attributes from index `i` on, after those above them.
proof fn lemma_close_step(attrs: Seq<MarkupAttribute>, i: int)
    requires
        0 < i <= attrs.len(),
    ensures
        render(close_all(attrs.subrange(i - 1, attrs.len() as int))) == render(close_all(attrs.subrange(i, attrs.len() as int))) + spec_close_tag(attrs[i - 1]),
{
    let n = attrs.len() as int;
    assert(attrs.subrange(i - 1, n) =~= seq![attrs[i - 1]] + attrs.subrange(i, n));
    lemma_close_all_concat(seq![attrs[i - 1]], attrs.subrange(i, n));
    lemma_close_one(attrs[i - 1]);
    lemma_render_concat(close_all(attrs.subrange(i, n)), seq![MarkupToken::Close(attrs[i - 1])]);
}

proof fn lemma_kept_prepend(x: MarkupAttribute, rest: Seq<MarkupAttribute>, kind: ResetKind)
    ensures
        kept(seq![x] + rest, kind) == (if survives(kind, x) { seq![x] } else { Seq::<MarkupAttribute>::empty() }) + kept(rest, kind),
{
    let pred = |a: MarkupAttribute| survives(kind, a);
    reveal_with_fuel(Seq::filter, 2);
    Seq::filter_distributes_over_add(seq![x], rest, pred);
    let one = seq![x];
    assert(one.drop_last() =~= Seq::<MarkupAttribute>::empty());
    assert(one.drop_last().filter(pred) =~= Seq::<MarkupAttribute>::empty());
    if survives(kind, x) {
        assert(one.filter(pred) =~= seq![x]);
    } else {
        assert(one.filter(pred) =~= Seq::<MarkupAttribute>::empty());
    }
}

pub proof fn lemma_render_single(t: MarkupToken)
    ensures
        render(seq![t]) == token_text(t),
{
    let s = seq![t];
    assert(s.drop_last() =~= Seq::<MarkupToken>::empty());
    assert(render(s.drop_last()) == Seq::<char>::empty());
    assert(s.last() == t);
    assert(Seq::<char>::empty() + token_text(t) =~= token_text(t));
}

/// Renders a log line's ANSI escape sequences as Pango markup.
#[derive(Debug)]
pub struct MarkupPerform {
    buffer: String,
    attributes: Vec<MarkupAttribute>,
}

impl MarkupPerform {
    pub closed spec fn buffer(&self) -> Seq<char> {
        self.buffer@
    }

    pub closed spec fn attributes(&self) -> Seq<MarkupAttribute> {
        self.attributes@
    }

    pub fn new() -> (res: Self)
        ensures
            res.buffer() == Seq::<char>::empty(),
            res.attributes() == Seq::<MarkupAttribute>::empty(),
    {
        MarkupPerform { buffer: String::new(), attributes: Vec::new() }
    }

    /// Takes the rendered text out, leaving the buffer empty.
    pub fn move_out_buffer(&mut self) -> (res: String)
        ensures
            res@ == old(self).buffer(),
            final(self).buffer() == Seq::<char>::empty(),
            final(self).attributes() == old(self).attributes(),
    {
        let mut buffer = String::new();
        std::mem::swap(&mut self.buffer, &mut buffer);
        buffer
    }

    /// Reopens every active attribute.
    pub fn begin_line(&mut self)
        ensures
            final(self).buffer() == old(self).buffer() + render(open_all(old(self).attributes())),
            final(self).attributes() == old(self).attributes(),
    {
        let n = self.attributes.len();
        let mut i: usize = 0;
        while i < n
            invariant
                n == self.attributes@.len(),
                i <= n,
                self.attributes@ == old(self).attributes@,
                self.buffer@ == old(self).buffer@ + render(open_all(self.attributes@.take(i as int))),
            decreases n - i,
        {
            let tag = self.attributes[i].open_tag();
            proof {
                let attrs = self.attributes@;
                assert(attrs.take(i + 1).drop_last() =~= attrs.take(i as int));
                assert(attrs.take(i + 1).last() == attrs[i as int]);
                assert(open_all(attrs.take(i + 1)) =~= open_all(attrs.take(i as int)) + seq![MarkupToken::Open(attrs[i as int])]);
                lemma_render_concat(open_all(attrs.take(i as int)), seq![MarkupToken::Open(attrs[i as int])]);
                lemma_render_single(MarkupToken::Open(attrs[i as int]));
            }
            self.buffer.append(tag.as_str());
            i = i + 1;
        }
        assert(self.attributes@.take(n as int) =~= self.attributes@);
    }

    /// Closes every active attribute, the last one first, keeping them active.
    pub fn end_line(&mut self)
        ensures
            final(self).buffer() == old(self).buffer() + render(close_all(old(self).attributes())),
            final(self).attributes() == old(self).attributes(),
    {
        let n = self.attributes.len();
        let mut i: usize = n;
        assert(self.attributes@.subrange(n as int, n as int) =~= Seq::<MarkupAttribute>::empty());
        while i > 0
            invariant
                n == self.attributes@.len(),
                i <= n,
                self.attributes@ == old(self).attributes@,
                self.buffer@ == old(self).buffer@ + render(close_all(self.attributes@.subrange(i as int, n as int))),
            decreases i,
        {
            let tag = self.attributes[i - 1].close_tag();
            proof {
                lemma_close_step(self.attributes@, i as int);
            }
            self.buffer.append(tag);
            i = i - 1;
        }
        assert(self.attributes@.subrange(0, n as int) =~= self.attributes@);
    }

    /// Closes every active attribute, the last one first, and forgets them.
    pub fn reset_all(&mut self)
        ensures
            final(self).buffer() == old(self).buffer() + render(close_all(old(self).attributes())),
            final(self).attributes() == Seq::<MarkupAttribute>::empty(),
    {
        let ghost orig = self.attributes@;
        let ghost n = orig.len() as int;
        assert(orig.subrange(n, n) =~= Seq::<MarkupAttribute>::empty());
        assert(orig.take(n) =~= orig);
        while self.attributes.len() > 0
            invariant
                self.attributes@.len() <= n,
                self.attributes@ == orig.take(self.attributes@.len() as int),
                n == orig.len(),
                self.buffer@ == old(self).buffer@ + render(close_all(orig.subrange(self.attributes@.len() as int, n))),
            decreases self.attributes@.len(),
        {
            let k = self.attributes.len();
            let attr = self.attributes.pop().unwrap();
            proof {
                assert(attr == orig[k - 1]);
                lemma_close_step(orig, k as int);
                assert(self.attributes@ =~= orig.take(k - 1));
            }
            self.buffer.append(attr.close_tag());
        }
        assert(orig.subrange(0, n) =~= orig);
    }

    /// Closes every active attribute, then reopens those that survive a reset
    /// of the given kind.
    fn reset(&mut self, kind: ResetKind)
        ensures
            final(self).buffer() == old(self).buffer() + render(close_all(old(self).attributes()) + open_all(kept(old(self).attributes(), kind))),
            final(self).attributes() == kept(old(self).attributes(), kind),
    {
        let ghost orig = self.attributes@;
        let ghost n = orig.len() as int;
        let mut t: Vec<MarkupAttribute> = Vec::new();
        assert(orig.subrange(n, n) =~= Seq::<MarkupAttribute>::empty());
        assert(orig.take(n) =~= orig);
        assert(kept(Seq::<MarkupAttribute>::empty(), kind) =~= Seq::<MarkupAttribute>::empty());
        while self.attributes.len() > 0
            invariant
                self.attributes@.len() <= n,
                self.attributes@ == orig.take(self.attributes@.len() as int),
                n == orig.len(),
                self.buffer@ == old(self).buffer@ + render(close_all(orig.subrange(self.attributes@.len() as int, n))),
                t@ == kept(orig.subrange(self.attributes@.len() as int, n), kind),
            decreases self.attributes@.len(),
        {
            let k = self.attributes.len();
            let attr = self.attributes.pop().unwrap();
            proof {
                assert(attr == orig[k - 1]);
                lemma_close_step(orig, k as int);
                assert(self.attributes@ =~= orig.take(k - 1));
                assert(orig.subrange(k - 1, n) =~= seq![attr] + orig.subrange(k as int, n));
                lemma_kept_prepend(attr, orig.subrange(k as int, n), kind);
            }
            self.buffer.append(attr.close_tag());
            if attr_survives(kind, &attr) {
                t.insert(0, attr);
                assert(t@ =~= seq![attr] + kept(orig.subrange(k as int, n), kind));
            } else {
                assert(t@ =~= Seq::<MarkupAttribute>::empty() + kept(orig.subrange(k as int, n), kind));
            }
        }
        assert(orig.subrange(0, n) =~= orig);
        std::mem::swap(&mut t, &mut self.attributes);
        let ghost mid = self.buffer@;
        self.begin_line();
        proof {
            lemma_render_concat(close_all(orig), open_all(kept(orig, kind)));
        }
    }

    /// Applies one SGR parameter.
    fn apply_code(&mut self, code: u16)
        ensures
            final(self).buffer() == old(self).buffer() + render(code_step(old(self).attributes(), code).0),
            final(self).attributes() == code_step(old(self).attributes(), code).1,
    {
        if code == 0 {
            self.reset_all();
        } else if code == 39 {
            self.reset(ResetKind::Foreground);
        } else if code == 49 {
            self.reset(ResetKind::Background);
        } else {
            match ansi_escape_to_markup_attribute(code) {
                Some(attr) => {
                    let tag = attr.open_tag();
                    proof {
                        lemma_render_single(MarkupToken::Open(attr));
                    }
                    self.buffer.append(tag.as_str());
                    self.attributes.push(attr);
                },
                None => {
                    assert(render(Seq::<MarkupToken>::empty()) == Seq::<char>::empty());
                    assert(self.buffer@ =~= old(self).buffer@ + Seq::<char>::empty());
                },
            }
        }
    }

    /// Applies the parameters of a control sequence, group by group, each
    /// parameter and sub-parameter in turn. The final byte of the sequence is
    /// not looked at.
    pub fn csi_dispatch(&mut self, params: &Vec<Vec<u16>>)
        ensures
            final(self).buffer() == old(self).buffer() + render(groups_step(old(self).attributes(), params@).0),
            final(self).attributes() == groups_step(old(self).attributes(), params@).1,
    {
        let ghost a0 = self.attributes@;
        let ghost b0 = self.buffer@;
        let mut i: usize = 0;
        assert(params@.take(0) =~= Seq::<Vec<u16>>::empty());
        assert(render(Seq::<MarkupToken>::empty()) == Seq::<char>::empty());
        assert(b0 + Seq::<char>::empty() =~= b0);
        while i < params.len()
            invariant
                i <= params@.len(),
                self.buffer@ == b0 + render(groups_step(a0, params@.take(i as int)).0),
                self.attributes@ == groups_step(a0, params@.take(i as int)).1,
            decreases params@.len() - i,
        {
            let group = &params[i];
            let ghost a1 = self.attributes@;
            let ghost b1 = self.buffer@;
            let mut j: usize = 0;
            assert(group@.take(0) =~= Seq::<u16>::empty());
            assert(b1 + Seq::<char>::empty() =~= b1);
            while j < group.len()
                invariant
                    j <= group@.len(),
                    self.buffer@ == b1 + render(codes_step(a1, group@.take(j as int)).0),
                    self.attributes@ == codes_step(a1, group@.take(j as int)).1,
                decreases group@.len() - j,
            {
                let ghost before = codes_step(a1, group@.take(j as int));
                self.apply_code(group[j]);
                proof {
                    assert(group@.take(j + 1).drop_last() =~= group@.take(j as int));
                    assert(group@.take(j + 1).last() == group@[j as int]);
                    lemma_render_concat(before.0, code_step(before.1, group@[j as int]).0);
                }
                j = j + 1;
            }
            proof {
                assert(group@.take(group@.len() as int) =~= group@);
                assert(params@.take(i + 1).drop_last() =~= params@.take(i as int));
                assert(params@.take(i + 1).last() == params@[i as int]);
                lemma_render_concat(groups_step(a0, params@.take(i as int)).0, codes_step(a1, group@).0);
            }
            i = i + 1;
        }
        assert(params@.take(params@.len() as int) =~= params@);
    }

    /// Appends a printed character.
    pub fn print(&mut self, c: char)
        ensures
            final(self).buffer() == old(self).buffer().push(c),
            final(self).attributes() == old(self).attributes(),
    {
        push_char(&mut self.buffer, c);
    }

    /// Applies the events of a log line in order.
    pub fn perform(&mut self, events: &Vec<TermEvent>)
        ensures
            final(self).buffer() == old(self).buffer() + render(events_step(old(self).attributes(), events@).0),
            final(self).attributes() == events_step(old(self).attributes(), events@).1,
    {
        let ghost a0 = self.attributes@;
        let ghost b0 = self.buffer@;
        let mut i: usize = 0;
        assert(events@.take(0) =~= Seq::<TermEvent>::empty());
        assert(render(Seq::<MarkupToken>::empty()) == Seq::<char>::empty());
        assert(b0 + Seq::<char>::empty() =~= b0);
        while i < events.len()
            invariant
                i <= events@.len(),
                self.buffer@ == b0 + render(events_step(a0, events@.take(i as int)).0),
                self.attributes@ == events_step(a0, events@.take(i as int)).1,
            decreases events@.len() - i,
        {
            let ghost before = events_step(a0, events@.take(i as int));
            match &events[i] {
                TermEvent::Print(c) => {
                    self.print(*c);
                    proof {
                        lemma_render_single(MarkupToken::Text(*c));
                        assert(self.buffer@ =~= b0 + render(before.0) + render(seq![MarkupToken::Text(*c)]));
                    }
                },
                TermEvent::Csi(groups) => {
                    self.csi_dispatch(groups);
                },
            }
            proof {
                assert(events@.take(i + 1).drop_last() =~= events@.take(i as int));
                assert(events@.take(i + 1).last() == events@[i as int]);
                lemma_render_concat(before.0, event_step(before.1, events@[i as int]).0);
            }
            i = i + 1;
        }
        assert(events@.take(events@.len() as int) =~= events@);
    }

    /// Renders one log line: reopens the attributes carried over from earlier
    /// lines, applies the line's events, closes what is still active and
    /// returns the timestamp, a space and everything rendered so far.
    pub fn render_line(&mut self, timestamp: &str, events: &Vec<TermEvent>) -> (line: String)
        ensures
            line@ == timestamp@ + " "@ + old(self).buffer() + render(line_tokens(old(self).attributes(), events@)),
            final(self).buffer() == Seq::<char>::empty(),
            final(self).attributes() == events_step(old(self).attributes(), events@).1,
    {
        let ghost a0 = self.attributes@;
        self.begin_line();
        self.perform(events);
        self.end_line();
        let rendered = self.move_out_buffer();
        let mut line = String::from_str(timestamp);
        line.append(" ");
        line.append(rendered.as_str());
        proof {
            let (toks, after) = events_step(a0, events@);
            lemma_render_concat(open_all(a0), toks);
            lemma_render_concat(open_all(a0) + toks, close_all(after));
            assert(line@ =~= timestamp@ + " "@ + old(self).buffer() + render(line_tokens(a0, events@)));
        }
        line
    }

    /// Decodes a raw log line, a timestamp, a space and the message: the
    /// bytes are read as UTF-8 (invalid sequences replaced), split at the
    /// first space, and the message's escape sequences are rendered as
    /// markup after the attributes carried over from earlier lines. Returns
    /// the timestamp, a space and the markup, and whether the line is
    /// finished, that is, leaves no attribute active. The engine's log lines
    /// always hold a space after their timestamp.
    pub fn decode(&mut self, line: &Vec<u8>) -> (decoded: (String, bool))
        requires
            spec_split_once(lossy_utf8(line@), " "@) is Some,
        ensures
            ({
                let (ts, msg) = spec_split_once(lossy_utf8(line@), " "@)->0;
                let events = ansi_events(utf8_encoding(msg));
                &&& decoded.0@ == ts + " "@ + old(self).buffer() + render(line_tokens(old(self).attributes(), events))
                &&& decoded.1 == (events_step(old(self).attributes(), events).1.len() == 0)
                &&& final(self).buffer() == Seq::<char>::empty()
                &&& final(self).attributes() == events_step(old(self).attributes(), events).1
            }),
    {
        let text = utf8_lossy(line);
        match split_once(text.as_str(), " ") {
            Some((timestamp, message)) => {
                let bytes = utf8_bytes(message.as_str());
                let events = term_events(&bytes);
                let rendered = self.render_line(timestamp.as_str(), &events);
                let finished = self.attributes.len() == 0;
                (rendered, finished)
            },
            None => {
                proof {
                    assert(false);
                }
                (String::new(), false)
            },
        }
    }

    /// Decodes a raw log line when it holds a space, as `decode` does;
    /// a line without a space is not decoded, changes nothing and gives
    /// `None`.
    pub fn decode_timestamped(&mut self, line: &Vec<u8>) -> (decoded: Option<(String, bool)>)
        ensures
            match spec_split_once(lossy_utf8(line@), " "@) {
                Some((ts, msg)) => {
                    let events = ansi_events(utf8_encoding(msg));
                    &&& match decoded {
                        Some((text, finished)) => text@ == ts + " "@ + old(self).buffer() + render(
                            line_tokens(old(self).attributes(), events),
                        ) && finished == (events_step(old(self).attributes(), events).1.len() == 0),
                        None => false,
                    }
                    &&& final(self).buffer() == Seq::<char>::empty()
                    &&& final(self).attributes() == events_step(old(self).attributes(), events).1
                },
                None => decoded is None && final(self).buffer() == old(self).buffer() && final(self).attributes()
                    == old(self).attributes(),
            },
    {
        let text = utf8_lossy(line);
        match split_once(text.as_str(), " ") {
            Some(_) => Some(self.decode(line)),
            None => None,
        }
    }
}

/// Whether an attribute stays active through a reset of the given kind.
fn attr_survives(kind: ResetKind, attr: &MarkupAttribute) -> (res: bool)
    ensures
        res == survives(kind, *attr),
{
    match kind {
        ResetKind::Foreground => !matches!(attr, MarkupAttribute::Foreground(_)),
        ResetKind::Background => !matches!(attr, MarkupAttribute::Background(_)),
    }
}

} // verus!

verus! {

/// Replays a token sequence against a stack of open attributes: an opening
/// token pushes its attribute, a closing token must close the attribute on
/// top of the stack, text leaves the stack alone. `None` when a closing token
/// does not match.
pub open spec fn nest(tokens: Seq<MarkupToken>, stack: Seq<MarkupAttribute>) -> Option<Seq<MarkupAttribute>>
    decreases tokens.len(),
{
    if tokens.len() == 0 {
        Some(stack)
    } else {
        match nest(tokens.drop_last(), stack) {
            None => None,
            Some(s) => match tokens.last() {
                MarkupToken::Open(attr) => Some(s.push(attr)),
                MarkupToken::Close(attr) => if s.len() > 0 && s.last() == attr {
                    Some(s.drop_last())
                } else {
                    None
                },
                MarkupToken::Text(_) => Some(s),
            },
        }
    }
}

pub proof fn lemma_nest_concat(a: Seq<MarkupToken>, b: Seq<MarkupToken>, s: Seq<MarkupAttribute>)
    ensures
        nest(a + b, s) == (match nest(a, s) {
            Some(s1) => nest(b, s1),
            None => None,
        }),
    decreases b.len(),
{
    if b.len() == 0 {
        assert(a + b =~= a);
    } else {
        lemma_nest_concat(a, b.drop_last(), s);
        assert((a + b).drop_last() =~= a + b.drop_last());
        assert((a + b).last() == b.last());
    }
}

pub proof fn lemma_nest_open_all(attrs: Seq<MarkupAttribute>, s: Seq<MarkupAttribute>)
    ensures
        nest(open_all(attrs), s) == Some(s + attrs),
    decreases attrs.len(),
{
    if attrs.len() == 0 {
        assert(s + attrs =~= s);
    } else {
        lemma_nest_open_all(attrs.drop_last(), s);
        let t = open_all(attrs);
        assert(t.drop_last() =~= open_all(attrs.drop_last()));
        assert((s + attrs.drop_last()).push(attrs.last()) =~= s + attrs);
    }
}

pub proof fn lemma_nest_close_all(attrs: Seq<MarkupAttribute>, s: Seq<MarkupAttribute>)
    ensures
        nest(close_all(attrs), s + attrs) == Some(s),
    decreases attrs.len(),
{
    if attrs.len() == 0 {
        assert(s + attrs =~= s);
    } else {
        let x = attrs.last();
        let rest = attrs.drop_last();
        lemma_nest_close_all(rest, s);
        lemma_close_one(x);
        assert(nest(seq![MarkupToken::Close(x)], s + attrs) == Some(s + rest)) by {
            let one = seq![MarkupToken::Close(x)];
            assert(one.drop_last() =~= Seq::<MarkupToken>::empty());
            assert(nest(one.drop_last(), s + attrs) == Some(s + attrs));
            assert((s + attrs).last() == x);
            assert((s + attrs).drop_last() =~= s + rest);
        }
        lemma_nest_concat(seq![MarkupToken::Close(x)], close_all(rest), s + attrs);
    }
}

pub proof fn lemma_nest_code(attrs: Seq<MarkupAttribute>, code: u16)
    ensures
        nest(code_step(attrs, code).0, attrs) == Some(code_step(attrs, code).1),
{
    let e = Seq::<MarkupAttribute>::empty();
    assert(e + attrs =~= attrs);
    if code == 0 {
        lemma_nest_close_all(attrs, e);
    } else if code == 39 || code == 49 {
        let kind = if code == 39 { ResetKind::Foreground } else { ResetKind::Background };
        lemma_nest_close_all(attrs, e);
        lemma_nest_open_all(kept(attrs, kind), e);
        assert(e + kept(attrs, kind) =~= kept(attrs, kind));
        lemma_nest_concat(close_all(attrs), open_all(kept(attrs, kind)), attrs);
    } else {
        match spec_markup_attribute(code) {
            Some(attr) => {
                let one = seq![MarkupToken::Open(attr)];
                assert(one.drop_last() =~= Seq::<MarkupToken>::empty());
                assert(nest(one.drop_last(), attrs) == Some(attrs));
            },
            None => {},
        }
    }
}

pub proof fn lemma_nest_codes(attrs: Seq<MarkupAttribute>, codes: Seq<u16>)
    ensures
        nest(codes_step(attrs, codes).0, attrs) == Some(codes_step(attrs, codes).1),
    decreases codes.len(),
{
    if codes.len() > 0 {
        let (t1, a1) = codes_step(attrs, codes.drop_last());
        lemma_nest_codes(attrs, codes.drop_last());
        lemma_nest_code(a1, codes.last());
        lemma_nest_concat(t1, code_step(a1, codes.last()).0, attrs);
    }
}

pub proof fn lemma_nest_groups(attrs: Seq<MarkupAttribute>, groups: Seq<Vec<u16>>)
    ensures
        nest(groups_step(attrs, groups).0, attrs) == Some(groups_step(attrs, groups).1),
    decreases groups.len(),
{
    if groups.len() > 0 {
        let (t1, a1) = groups_step(attrs, groups.drop_last());
        lemma_nest_groups(attrs, groups.drop_last());
        lemma_nest_codes(a1, groups.last()@);
        lemma_nest_concat(t1, codes_step(a1, groups.last()@).0, attrs);
    }
}

pub proof fn lemma_nest_events(attrs: Seq<MarkupAttribute>, events: Seq<TermEvent>)
    ensures
        nest(events_step(attrs, events).0, attrs) == Some(events_step(attrs, events).1),
    decreases events.len(),
{
    if events.len() > 0 {
        let (t1, a1) = events_step(attrs, events.drop_last());
        lemma_nest_events(attrs, events.drop_last());
        match events.last() {
            TermEvent::Print(c) => {
                let one = seq![MarkupToken::Text(c)];
                assert(one.drop_last() =~= Seq::<MarkupToken>::empty());
                assert(nest(one.drop_last(), a1) == Some(a1));
            },
            TermEvent::Csi(groups) => {
                lemma_nest_groups(a1, groups@);
            },
        }
        lemma_nest_concat(t1, event_step(a1, events.last()).0, attrs);
    }
}

/// Every decoded line is well nested: starting from no open tag, each closing
/// tag closes the innermost open one, and every tag opened in the line, those
/// reopened for attributes carried over included, is closed by its end.
pub proof fn lemma_line_well_nested(attrs: Seq<MarkupAttribute>, events: Seq<TermEvent>)
    ensures
        nest(line_tokens(attrs, events), Seq::empty()) == Some(Seq::<MarkupAttribute>::empty()),
{
    let e = Seq::<MarkupAttribute>::empty();
    let (toks, after) = events_step(attrs, events);
    lemma_nest_open_all(attrs, e);
    assert(e + attrs =~= attrs);
    lemma_nest_events(attrs, events);
    lemma_nest_close_all(after, e);
    assert(e + after =~= after);
    lemma_nest_concat(open_all(attrs), toks, e);
    lemma_nest_concat(open_all(attrs) + toks, close_all(after), e);
}

/// The characters that a log line prints, in order.
pub open spec fn printed(events: Seq<TermEvent>) -> Seq<char>
    decreases events.len(),
{
    if events.len() == 0 {
        Seq::empty()
    } else {
        printed(events.drop_last()) + match events.last() {
            TermEvent::Print(c) => seq![c],
            TermEvent::Csi(_) => Seq::empty(),
        }
    }
}

/// The printed characters of a token sequence, tags left out.
pub open spec fn text_of(tokens: Seq<MarkupToken>) -> Seq<char>
    decreases tokens.len(),
{
    if tokens.len() == 0 {
        Seq::empty()
    } else {
        text_of(tokens.drop_last()) + match tokens.last() {
            MarkupToken::Text(c) => seq![c],
            _ => Seq::empty(),
        }
    }
}

pub proof fn lemma_text_of_concat(a: Seq<MarkupToken>, b: Seq<MarkupToken>)
    ensures
        text_of(a + b) == text_of(a) + text_of(b),
    decreases b.len(),
{
    if b.len() == 0 {
        assert(a + b =~= a);
    } else {
        lemma_text_of_concat(a, b.drop_last());
        assert((a + b).drop_last() =~= a + b.drop_last());
    }
}

proof fn lemma_text_of_open_all(attrs: Seq<MarkupAttribute>)
    ensures
        text_of(open_all(attrs)) == Seq::<char>::empty(),
    decreases attrs.len(),
{
    if attrs.len() > 0 {
        lemma_text_of_open_all(attrs.drop_last());
        assert(open_all(attrs).drop_last() =~= open_all(attrs.drop_last()));
    }
}

proof fn lemma_text_of_close_all(attrs: Seq<MarkupAttribute>)
    ensures
        text_of(close_all(attrs)) == Seq::<char>::empty(),
    decreases attrs.len(),
{
    if attrs.len() > 0 {
        let x = attrs.last();
        lemma_text_of_close_all(attrs.drop_last());
        let one = seq![MarkupToken::Close(x)];
        assert(one.drop_last() =~= Seq::<MarkupToken>::empty());
        assert(text_of(Seq::<MarkupToken>::empty()) == Seq::<char>::empty());
        assert(text_of(one) =~= Seq::<char>::empty());
        lemma_text_of_concat(one, close_all(attrs.drop_last()));
    }
}

proof fn lemma_text_of_codes(attrs: Seq<MarkupAttribute>, codes: Seq<u16>)
    ensures
        text_of(codes_step(attrs, codes).0) == Seq::<char>::empty(),
    decreases codes.len(),
{
    if codes.len() > 0 {
        let (t1, a1) = codes_step(attrs, codes.drop_last());
        lemma_text_of_codes(attrs, codes.drop_last());
        let code = codes.last();
        lemma_text_of_close_all(a1);
        if code == 39 || code == 49 {
            let kind = if code == 39 { ResetKind::Foreground } else { ResetKind::Background };
            lemma_text_of_open_all(kept(a1, kind));
            lemma_text_of_concat(close_all(a1), open_all(kept(a1, kind)));
        } else if code != 0 {
            match spec_markup_attribute(code) {
                Some(attr) => {
                    let one = seq![MarkupToken::Open(attr)];
                    assert(one.drop_last() =~= Seq::<MarkupToken>::empty());
                    assert(text_of(Seq::<MarkupToken>::empty()) == Seq::<char>::empty());
                    assert(text_of(one) =~= Seq::<char>::empty());
                },
                None => {
                    assert(text_of(Seq::<MarkupToken>::empty()) == Seq::<char>::empty());
                },
            }
        }
        lemma_text_of_concat(t1, code_step(a1, code).0);
    }
}

proof fn lemma_text_of_groups(attrs: Seq<MarkupAttribute>, groups: Seq<Vec<u16>>)
    ensures
        text_of(groups_step(attrs, groups).0) == Seq::<char>::empty(),
    decreases groups.len(),
{
    if groups.len() > 0 {
        let (t1, a1) = groups_step(attrs, groups.drop_last());
        lemma_text_of_groups(attrs, groups.drop_last());
        lemma_text_of_codes(a1, groups.last()@);
        lemma_text_of_concat(t1, codes_step(a1, groups.last()@).0);
    }
}

proof fn lemma_text_of_events(attrs: Seq<MarkupAttribute>, events: Seq<TermEvent>)
    ensures
        text_of(events_step(attrs, events).0) == printed(events),
    decreases events.len(),
{
    if events.len() > 0 {
        let (t1, a1) = events_step(attrs, events.drop_last());
        lemma_text_of_events(attrs, events.drop_last());
        match events.last() {
            TermEvent::Print(c) => {
                let one = seq![MarkupToken::Text(c)];
                assert(one.drop_last() =~= Seq::<MarkupToken>::empty());
                assert(text_of(Seq::<MarkupToken>::empty()) == Seq::<char>::empty());
                assert(text_of(one) =~= seq![c]);
            },
            TermEvent::Csi(groups) => {
                lemma_text_of_groups(a1, groups@);
            },
        }
        lemma_text_of_concat(t1, event_step(a1, events.last()).0);
    }
}

/// The markup of a decoded line carries exactly the line's printed text: with
/// its tags left out, what remains is what plain-text decoding gives, whatever
/// attributes were carried over from earlier lines.
pub proof fn lemma_markup_text_is_plain_text(attrs: Seq<MarkupAttribute>, events: Seq<TermEvent>)
    ensures
        text_of(line_tokens(attrs, events)) == printed(events),
{
    let (toks, after) = events_step(attrs, events);
    lemma_text_of_open_all(attrs);
    lemma_text_of_events(attrs, events);
    lemma_text_of_close_all(after);
    lemma_text_of_concat(open_all(attrs), toks);
    lemma_text_of_concat(open_all(attrs) + toks, close_all(after));
    assert(Seq::<char>::empty() + printed(events) + Seq::<char>::empty() =~= printed(events));
}

/// A reset of the foreground (39) or background (49) color switches off
/// every attribute of that kind and nothing else: what stays active survives
/// the reset, and every surviving attribute stays active, in its order.
pub proof fn lemma_reset_keeps_the_others(attrs: Seq<MarkupAttribute>, kind: ResetKind)
    ensures
        forall|i: int| 0 <= i < kept(attrs, kind).len() ==> survives(kind, #[trigger] kept(attrs, kind)[i]),
        forall|i: int| 0 <= i < attrs.len() && survives(kind, #[trigger] attrs[i]) ==> kept(attrs, kind).contains(attrs[i]),
        kept(attrs, kind).len() <= attrs.len(),
        (forall|i: int| 0 <= i < attrs.len() ==> survives(kind, #[trigger] attrs[i])) ==> kept(attrs, kind) == attrs,
    decreases attrs.len(),
{
    broadcast use vstd::seq_lib::group_filter_ensures;

    if attrs.len() > 0 {
        lemma_reset_keeps_the_others(attrs.drop_last(), kind);
        reveal_with_fuel(Seq::filter, 1);
        if forall|i: int| 0 <= i < attrs.len() ==> survives(kind, #[trigger] attrs[i]) {
            assert(forall|i: int| 0 <= i < attrs.drop_last().len() ==> survives(kind, #[trigger] attrs.drop_last()[i])) by {
                assert forall|i: int| 0 <= i < attrs.drop_last().len() implies survives(kind, #[trigger] attrs.drop_last()[i]) by {
                    assert(attrs.drop_last()[i] == attrs[i]);
                }
            }
            assert(survives(kind, attrs[attrs.len() - 1]));
            assert(attrs.drop_last().push(attrs.last()) =~= attrs);
        }
    } else {
        reveal_with_fuel(Seq::filter, 1);
        assert(kept(attrs, kind) =~= attrs);
    }
}

impl Default for MarkupPerform {
    fn default() -> (res: Self)
        ensures
            res.buffer() == Seq::<char>::empty(),
            res.attributes() == Seq::<MarkupAttribute>::empty(),
    {
        MarkupPerform::new()
    }
}

/// Collects the printed text of log lines, escape sequences left out.
#[derive(Debug)]
pub struct PlainTextPerform {
    buffer: String,
}

impl PlainTextPerform {
    pub closed spec fn buffer(&self) -> Seq<char> {
        self.buffer@
    }

    pub fn new() -> (res: Self)
        ensures
            res.buffer() == Seq::<char>::empty(),
    {
        PlainTextPerform { buffer: String::new() }
    }

    /// Takes the collected text out, leaving the buffer empty.
    pub fn move_out_buffer(&mut self) -> (res: String)
        ensures
            res@ == old(self).buffer(),
            final(self).buffer() == Seq::<char>::empty(),
    {
        let mut buffer = String::new();
        std::mem::swap(&mut self.buffer, &mut buffer);
        buffer
    }

    /// Appends a printed character.
    pub fn print(&mut self, c: char)
        ensures
            final(self).buffer() == old(self).buffer().push(c),
    {
        push_char(&mut self.buffer, c);
    }

    /// Appends the printed characters of a sequence of events; control
    /// sequences print nothing.
    pub fn decode_events(&mut self, events: &Vec<TermEvent>)
        ensures
            final(self).buffer() == old(self).buffer() + printed(events@),
    {
        let ghost b0 = self.buffer@;
        let mut i: usize = 0;
        assert(events@.take(0) =~= Seq::<TermEvent>::empty());
        assert(b0 + Seq::<char>::empty() =~= b0);
        while i < events.len()
            invariant
                i <= events@.len(),
                self.buffer@ == b0 + printed(events@.take(i as int)),
            decreases events@.len() - i,
        {
            let ghost before = self.buffer@;
            match &events[i] {
                TermEvent::Print(c) => {
                    self.print(*c);
                },
                TermEvent::Csi(_) => {},
            }
            proof {
                let t = events@.take(i + 1);
                assert(t.drop_last() =~= events@.take(i as int));
                assert(t.last() == events@[i as int]);
                assert(self.buffer@ =~= b0 + printed(t));
            }
            i = i + 1;
        }
        assert(events@.take(events@.len() as int) =~= events@);
    }
}

impl Default for PlainTextPerform {
    fn default() -> (res: Self)
        ensures
            res.buffer() == Seq::<char>::empty(),
    {
        PlainTextPerform::new()
    }
}

impl PlainTextPerform {
    /// Appends the printed characters of raw log output, its escape
    /// sequences left out.
    pub fn decode(&mut self, bytes: &Vec<u8>)
        ensures
            final(self).buffer() == old(self).buffer() + printed(ansi_events(bytes@)),
    {
        let events = term_events(bytes);
        self.decode_events(&events);
    }
}

/// What a line has rendered so far, from its start, leaves open exactly the
/// active attributes, outermost first: after reopening the carried-over
/// attributes and applying any events, every closing tag has closed the
/// innermost open one, and the open tags are those of the attributes now
/// active.
pub proof fn lemma_open_tags_are_the_attributes(attrs: Seq<MarkupAttribute>, events: Seq<TermEvent>)
    ensures
        nest(open_all(attrs) + events_step(attrs, events).0, Seq::empty()) == Some(events_step(attrs, events).1),
{
    let e = Seq::<MarkupAttribute>::empty();
    lemma_nest_open_all(attrs, e);
    assert(e + attrs =~= attrs);
    lemma_nest_events(attrs, events);
    lemma_nest_concat(open_all(attrs), events_step(attrs, events).0, e);
}

/// The effect of each SGR parameter: 0 closes every attribute and leaves
/// none active; 39 (49) closes all, reopens those that survive and leaves
/// active exactly the attributes that are not foreground (background)
/// colors, in their order; a table code opens its attribute on top; any
/// other code renders nothing and changes nothing.
pub proof fn lemma_code_effects(attrs: Seq<MarkupAttribute>, code: u16)
    ensures
        code == 0 ==> code_step(attrs, code) == (close_all(attrs), Seq::<MarkupAttribute>::empty()),
        code == 39 ==> code_step(attrs, code).1 == kept(attrs, ResetKind::Foreground)
            && code_step(attrs, code).0 == close_all(attrs) + open_all(kept(attrs, ResetKind::Foreground)),
        code == 49 ==> code_step(attrs, code).1 == kept(attrs, ResetKind::Background)
            && code_step(attrs, code).0 == close_all(attrs) + open_all(kept(attrs, ResetKind::Background)),
        code != 0 && code != 39 && code != 49 ==> match spec_markup_attribute(code) {
            Some(attr) => code_step(attrs, code) == (seq![MarkupToken::Open(attr)], attrs.push(attr)),
            None => code_step(attrs, code) == (Seq::<MarkupToken>::empty(), attrs) && render(code_step(attrs, code).0)
                == Seq::<char>::empty(),
        },
{
}

/// The color an attribute sets, if it sets one.
pub open spec fn attribute_color(attr: Option<MarkupAttribute>) -> Option<&'static str> {
    match attr {
        Some(MarkupAttribute::Foreground(c)) => Some(c),
        Some(MarkupAttribute::Background(c)) => Some(c),
        _ => None,
    }
}

pub open spec fn is_foreground(attr: Option<MarkupAttribute>) -> bool {
    attr matches Some(MarkupAttribute::Foreground(_))
}

pub open spec fn is_background(attr: Option<MarkupAttribute>) -> bool {
    attr matches Some(MarkupAttribute::Background(_))
}

/// The SGR table: 1 is bold and nothing else is; the foreground codes 30 to
/// 37 and 90 to 97 switch on a foreground color and only they do; the
/// background codes 40 to 47, 100 to 106 and 109 switch on a background
/// color and only they do; and each foreground code below 97 shares its
/// color with the background code ten above it (33 yellow, 43 yellow
/// background).
pub proof fn lemma_sgr_table_kinds(code: u16)
    ensures
        spec_markup_attribute(code) == Some(MarkupAttribute::Bold) <==> code == 1,
        is_foreground(spec_markup_attribute(code)) <==> ((30 <= code && code <= 37) || (90 <= code && code <= 97)),
        is_background(spec_markup_attribute(code)) <==> ((40 <= code && code <= 47) || (100 <= code && code <= 106)
            || code == 109),
        spec_markup_attribute(code) is None <==> !(code == 1 || (30 <= code && code <= 37) || (40 <= code && code <= 47)
            || (90 <= code && code <= 97) || (100 <= code && code <= 106) || code == 109),
        ((30 <= code && code <= 37) || (90 <= code && code <= 96)) ==> attribute_color(spec_markup_attribute(code))
            == attribute_color(spec_markup_attribute((code + 10) as u16)),
{
}

/// The colors of the table, by name: black, red, green, yellow, blue,
/// magenta, cyan and white, then their bright variants.
pub proof fn lemma_sgr_colors()
    ensures
        spec_markup_attribute(30) == Some(MarkupAttribute::Foreground("#000000")),
        spec_markup_attribute(31) == Some(MarkupAttribute::Foreground("#e01b24")),
        spec_markup_attribute(32) == Some(MarkupAttribute::Foreground("#33d17a")),
        spec_markup_attribute(33) == Some(MarkupAttribute::Foreground("#f6d32d")),
        spec_markup_attribute(34) == Some(MarkupAttribute::Foreground("#3584e4")),
        spec_markup_attribute(35) == Some(MarkupAttribute::Foreground("#d4267e")),
        spec_markup_attribute(36) == Some(MarkupAttribute::Foreground("#00f7f7")),
        spec_markup_attribute(37) == Some(MarkupAttribute::Foreground("#ffffff")),
        spec_markup_attribute(90) == Some(MarkupAttribute::Foreground("#3d3846")),
        spec_markup_attribute(97) == Some(MarkupAttribute::Foreground("#f66151")),
        spec_markup_attribute(109) == Some(MarkupAttribute::Background("#f66151")),
{
}

} // verus!
