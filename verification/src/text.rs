use vstd::prelude::*;

use crate::term::push_char;

verus! {

broadcast use vstd::string::group_string_axioms;

/// The characters of an optional string.
pub open spec fn opt_string_view(s: Option<String>) -> Option<Seq<char>> {
    match s {
        Some(s) => Some(s@),
        None => None,
    }
}

/// The characters of a string, in order.
pub fn chars_of(s: &str) -> (chars: Vec<char>)
    ensures
        chars@ == s@,
{
    let mut chars: Vec<char> = Vec::new();
    for c in it: s.chars()
        invariant
            it.seq() == s@,
            chars@ == it.seq().take(it.index() as int),
    {
        chars.push(c);
    }
    chars
}

/// A string holding the characters of `chars` from index `from` up to, not
/// including, index `to`.
pub fn string_of(chars: &Vec<char>, from: usize, to: usize) -> (s: String)
    requires
        from <= to <= chars@.len(),
    ensures
        s@ == chars@.subrange(from as int, to as int),
{
    let mut s = String::new();
    let mut i: usize = from;
    while i < to
        invariant
            from <= i <= to <= chars@.len(),
            s@ == chars@.subrange(from as int, i as int),
        decreases to - i,
    {
        push_char(&mut s, chars[i]);
        assert(chars@.subrange(from as int, i + 1) =~= chars@.subrange(from as int, i as int).push(chars@[i as int]));
        i = i + 1;
    }
    s
}

/// The short form of a container or image id: its first twelve characters.
pub fn short_id(id: &str) -> (short: String)
    ensures
        short@ == id@.take(if id@.len() < 12 { id@.len() as int } else { 12 }),
{
    let chars = chars_of(id);
    let n: usize = if chars.len() < 12 { chars.len() } else { 12 };
    string_of(&chars, 0, n)
}

/// The decimal digit for a value below ten.
pub open spec fn digit_char(d: int) -> char {
    if d == 0 { '0' } else if d == 1 { '1' } else if d == 2 { '2' } else if d == 3 { '3' }
    else if d == 4 { '4' } else if d == 5 { '5' } else if d == 6 { '6' } else if d == 7 { '7' }
    else if d == 8 { '8' } else { '9' }
}

/// The decimal representation of a natural number, without leading zeros.
pub open spec fn spec_decimal(n: nat) -> Seq<char>
    decreases n,
{
    if n < 10 {
        seq![digit_char(n as int)]
    } else {
        spec_decimal(n / 10).push(digit_char((n % 10) as int))
    }
}

fn digit(d: u64) -> (c: char)
    requires
        d < 10,
    ensures
        c == digit_char(d as int),
{
    match d {
        0 => '0',
        1 => '1',
        2 => '2',
        3 => '3',
        4 => '4',
        5 => '5',
        6 => '6',
        7 => '7',
        8 => '8',
        _ => '9',
    }
}

/// Formats an unsigned number in decimal.
pub fn decimal(n: u64) -> (text: String)
    ensures
        text@ == spec_decimal(n as nat),
{
    let mut m: u64 = n / 10;
    let mut digits: Vec<char> = Vec::new();
    digits.push(digit(n % 10));
    assert(spec_decimal(n as nat) =~= (if m == 0 { Seq::<char>::empty() } else { spec_decimal(m as nat) }) + digits@);
    while m > 0
        invariant
            spec_decimal(n as nat) == (if m == 0 { Seq::<char>::empty() } else { spec_decimal(m as nat) }) + digits@,
        decreases m,
    {
        let d = digit(m % 10);
        let ghost old_digits = digits@;
        digits.insert(0, d);
        proof {
            assert(digits@ =~= seq![d] + old_digits);
            if m < 10 {
                assert(spec_decimal(m as nat) == seq![d]);
                assert(spec_decimal(n as nat) =~= Seq::<char>::empty() + digits@);
            } else {
                assert(spec_decimal(m as nat) == spec_decimal((m / 10) as nat).push(d));
                assert(spec_decimal(n as nat) =~= spec_decimal((m / 10) as nat) + digits@);
            }
        }
        m = m / 10;
    }
    string_of(&digits, 0, digits.len())
}

/// A lowercase hexadecimal digit.
pub open spec fn hex_digit_char(d: int) -> char {
    if d < 10 { digit_char(d) } else if d == 10 { 'a' } else if d == 11 { 'b' } else if d == 12 { 'c' }
    else if d == 13 { 'd' } else if d == 14 { 'e' } else { 'f' }
}

/// The lowercase hexadecimal representation of a natural number.
pub open spec fn spec_hex(n: nat) -> Seq<char>
    decreases n,
{
    if n < 16 {
        seq![hex_digit_char(n as int)]
    } else {
        spec_hex(n / 16).push(hex_digit_char((n % 16) as int))
    }
}

pub(crate) fn hex_digit(d: u32) -> (c: char)
    requires
        d < 16,
    ensures
        c == hex_digit_char(d as int),
{
    match d {
        0 => '0',
        1 => '1',
        2 => '2',
        3 => '3',
        4 => '4',
        5 => '5',
        6 => '6',
        7 => '7',
        8 => '8',
        9 => '9',
        10 => 'a',
        11 => 'b',
        12 => 'c',
        13 => 'd',
        14 => 'e',
        _ => 'f',
    }
}

/// A control character that markup cannot hold literally and that is written
/// as a numeric character reference instead.
pub open spec fn is_escaped_control(c: char) -> bool {
    let n = c as u32;
    (0x1 <= n <= 0x8) || (0xb <= n <= 0xc) || (0xe <= n <= 0x1f) || (0x7f <= n <= 0x84) || (0x86 <= n <= 0x9f)
}

/// How one character is written in markup.
pub open spec fn escape_char(c: char) -> Seq<char> {
    if c == '&' {
        "&amp;"@
    } else if c == '<' {
        "&lt;"@
    } else if c == '>' {
        "&gt;"@
    } else if c == '\'' {
        "&#39;"@
    } else if c == '"' {
        "&quot;"@
    } else if is_escaped_control(c) {
        "&#x"@ + spec_hex(c as u32 as nat) + ";"@
    } else {
        seq![c]
    }
}

/// Text escaped so that a markup parser reads it verbatim.
pub open spec fn spec_markup_escape(s: Seq<char>) -> Seq<char>
    decreases s.len(),
{
    if s.len() == 0 {
        Seq::empty()
    } else {
        spec_markup_escape(s.drop_last()) + escape_char(s.last())
    }
}

/// Appends the hexadecimal form of a small number.
fn push_hex(out: &mut String, n: u32)
    requires
        n < 256,
    ensures
        final(out)@ == old(out)@ + spec_hex(n as nat),
{
    if n < 16 {
        push_char(out, hex_digit(n));
        assert(spec_hex(n as nat) == seq![hex_digit_char(n as int)]);
    } else {
        push_char(out, hex_digit(n / 16));
        push_char(out, hex_digit(n % 16));
        assert(spec_hex((n / 16) as nat) == seq![hex_digit_char((n / 16) as int)]);
        assert(spec_hex(n as nat) =~= seq![hex_digit_char((n / 16) as int), hex_digit_char((n % 16) as int)]);
    }
}

/// Appends one character as markup writes it.
fn push_escaped(out: &mut String, c: char)
    ensures
        final(out)@ == old(out)@ + escape_char(c),
{
    let n = c as u32;
    if c == '&' {
        out.append("&amp;");
    } else if c == '<' {
        out.append("&lt;");
    } else if c == '>' {
        out.append("&gt;");
    } else if c == '\'' {
        out.append("&#39;");
    } else if c == '"' {
        out.append("&quot;");
    } else if (0x1 <= n && n <= 0x8) || (0xb <= n && n <= 0xc) || (0xe <= n && n <= 0x1f) || (0x7f <= n
        && n <= 0x84) || (0x86 <= n && n <= 0x9f) {
        let ghost before = out@;
        out.append("&#x");
        push_hex(out, n);
        out.append(";");
        assert(out@ =~= before + ("&#x"@ + spec_hex(c as u32 as nat) + ";"@));
    } else {
        push_char(out, c);
        assert(seq![c] =~= escape_char(c));
    }
}

/// Escapes text for use in markup: `&`, `<`, `>`, `'` and `"` become entities
/// and control characters become numeric character references.
pub fn markup_escape(text: &str) -> (escaped: String)
    ensures
        escaped@ == spec_markup_escape(text@),
{
    let chars = chars_of(text);
    let mut out = String::new();
    let mut i: usize = 0;
    while i < chars.len()
        invariant
            i <= chars@.len(),
            chars@ == text@,
            out@ == spec_markup_escape(chars@.take(i as int)),
        decreases chars@.len() - i,
    {
        let c = chars[i];
        push_escaped(&mut out, c);
        proof {
            let t = chars@.take(i + 1);
            assert(t.drop_last() =~= chars@.take(i as int));
            assert(t.last() == c);
        }
        i = i + 1;
    }
    assert(chars@.take(chars@.len() as int) =~= chars@);
    out
}

proof fn lemma_hex_has_no_markup(n: nat)
    ensures
        forall|i: int| 0 <= i < spec_hex(n).len() ==> {
            let c = #[trigger] spec_hex(n)[i];
            c != '<' && c != '>' && c != '"' && c != '\'' && c != '&'
        },
    decreases n,
{
    if n >= 16 {
        lemma_hex_has_no_markup(n / 16);
        let p = spec_hex(n / 16);
        assert forall|i: int| 0 <= i < spec_hex(n).len() implies {
            let c = #[trigger] spec_hex(n)[i];
            c != '<' && c != '>' && c != '"' && c != '\'' && c != '&'
        } by {
            if i < p.len() {
                assert(spec_hex(n)[i] == p[i]);
            }
        }
    }
}

/// Escaped text holds no character that opens or closes a tag or quotes an
/// attribute, so that it can be placed anywhere in markup.
pub proof fn lemma_escaped_has_no_markup(s: Seq<char>)
    ensures
        !spec_markup_escape(s).contains('<'),
        !spec_markup_escape(s).contains('>'),
        !spec_markup_escape(s).contains('"'),
        !spec_markup_escape(s).contains('\''),
    decreases s.len(),
{
    reveal_strlit("&amp;");
    reveal_strlit("&lt;");
    reveal_strlit("&gt;");
    reveal_strlit("&#39;");
    reveal_strlit("&quot;");
    reveal_strlit("&#x");
    reveal_strlit(";");
    if s.len() > 0 {
        lemma_escaped_has_no_markup(s.drop_last());
        let c = s.last();
        let prefix = spec_markup_escape(s.drop_last());
        let tail = escape_char(c);
        if is_escaped_control(c) && c != '&' && c != '<' && c != '>' && c != '\'' && c != '"' {
            lemma_hex_has_no_markup(c as u32 as nat);
        }
        assert forall|x: char| x == '<' || x == '>' || x == '"' || x == '\'' implies !(prefix + tail).contains(x) by {
            if (prefix + tail).contains(x) {
                let k = choose|k: int| 0 <= k < (prefix + tail).len() && (prefix + tail)[k] == x;
                if k < prefix.len() {
                    assert(prefix[k] == x);
                } else {
                    assert(tail[k - prefix.len()] == x);
                }
            }
        }
    }
}

/// The markup of a container name: escaped, and struck through while the
/// container is being deleted.
pub fn name_markup(name: &str, to_be_deleted: bool) -> (markup: String)
    ensures
        markup@ == (if to_be_deleted {
            "<s>"@ + spec_markup_escape(name@) + "</s>"@
        } else {
            spec_markup_escape(name@)
        }),
{
    let escaped = markup_escape(name);
    if to_be_deleted {
        let mut markup = String::from_str("<s>");
        markup.append(escaped.as_str());
        markup.append("</s>");
        markup
    } else {
        escaped
    }
}

/// Where a pattern first occurs in a sequence of characters.
pub open spec fn find_seq(s: Seq<char>, pat: Seq<char>) -> Option<nat>
    decreases s.len(),
{
    if s.len() < pat.len() {
        None
    } else if s.take(pat.len() as int) == pat {
        Some(0)
    } else if s.len() == 0 {
        None
    } else {
        match find_seq(s.drop_first(), pat) {
            Some(i) => Some(i + 1),
            None => None,
        }
    }
}

/// The parts before and after the first occurrence of a pattern, as
/// `str::split_once` gives them.
pub open spec fn spec_split_once(s: Seq<char>, pat: Seq<char>) -> Option<(Seq<char>, Seq<char>)> {
    match find_seq(s, pat) {
        Some(i) => Some((s.take(i as int), s.skip((i + pat.len()) as int))),
        None => None,
    }
}

/// The first occurrence is the one found by a scan from the front.
pub(crate) proof fn lemma_find_seq(s: Seq<char>, pat: Seq<char>, i: int)
    requires
        pat.len() <= s.len(),
        0 <= i <= s.len() - pat.len() + 1,
        forall|j: int| 0 <= j < i ==> #[trigger] s.subrange(j, j + pat.len()) != pat,
        i <= s.len() - pat.len() ==> s.subrange(i, i + pat.len()) == pat,
    ensures
        find_seq(s, pat) == (if i <= s.len() - pat.len() { Some(i as nat) } else { None }),
    decreases i,
{
    assert(s.take(pat.len() as int) =~= s.subrange(0, pat.len() as int));
    if i > 0 {
        assert(s.subrange(0, 0int + pat.len()) != pat);
        if s.len() == 0 {
            assert(s.subrange(0, 0) =~= pat);
        }
        let t = s.drop_first();
        if t.len() >= pat.len() {
            assert forall|j: int| 0 <= j < i - 1 implies #[trigger] t.subrange(j, j + pat.len()) != pat by {
                assert(t.subrange(j, j + pat.len()) =~= s.subrange(j + 1, j + 1 + pat.len()));
            }
            if i <= s.len() - pat.len() {
                assert(t.subrange(i - 1, i - 1 + pat.len()) =~= s.subrange(i, i + pat.len()));
            }
            lemma_find_seq(t, pat, i - 1);
        }
    }
}

/// Whether `pat` occurs in `chars` at index `at`.
fn occurs_at(chars: &Vec<char>, pat: &Vec<char>, at: usize) -> (found: bool)
    requires
        at + pat@.len() <= chars@.len(),
    ensures
        found <==> chars@.subrange(at as int, at + pat@.len()) == pat@,
{
    let total = chars.len();
    let mut k: usize = 0;
    while k < pat.len()
        invariant
            k <= pat@.len(),
            total == chars@.len(),
            at + pat@.len() <= chars@.len(),
            forall|m: int| 0 <= m < k ==> chars@[at + m] == pat@[m],
        decreases pat@.len() - k,
    {
        assert(at + k < chars@.len());
        if chars[at + k] != pat[k] {
            assert(chars@.subrange(at as int, at + pat@.len())[k as int] != pat@[k as int]);
            return false;
        }
        k = k + 1;
    }
    assert(chars@.subrange(at as int, at + pat@.len()) =~= pat@);
    true
}

/// Finds the first occurrence of a pattern.
pub fn find_str(text: &Vec<char>, pat: &Vec<char>) -> (found: Option<usize>)
    ensures
        match find_seq(text@, pat@) {
            Some(i) => found == Some(i as usize) && i + pat@.len() <= text@.len(),
            None => found is None,
        },
{
    if text.len() < pat.len() {
        return None;
    }
    if pat.len() == 0 {
        proof {
            assert(text@.subrange(0, 0int + pat@.len()) =~= pat@);
            lemma_find_seq(text@, pat@, 0);
        }
        return Some(0);
    }
    let last = text.len() - pat.len();
    let mut i: usize = 0;
    while i <= last
        invariant
            last == text@.len() - pat@.len(),
            pat@.len() >= 1,
            text@.len() <= usize::MAX,
            i <= last + 1,
            forall|j: int| 0 <= j < i ==> #[trigger] text@.subrange(j, j + pat@.len()) != pat@,
        decreases last + 1 - i,
    {
        if occurs_at(text, pat, i) {
            proof { lemma_find_seq(text@, pat@, i as int); }
            return Some(i);
        }
        i = i + 1;
    }
    proof { lemma_find_seq(text@, pat@, i as int); }
    None
}

/// Splits a string at the first occurrence of a pattern.
pub fn split_once(text: &str, pat: &str) -> (parts: Option<(String, String)>)
    ensures
        match spec_split_once(text@, pat@) {
            Some((a, b)) => match parts {
                Some((x, y)) => x@ == a && y@ == b,
                None => false,
            },
            None => parts is None,
        },
{
    let chars = chars_of(text);
    let p = chars_of(pat);
    match find_str(&chars, &p) {
        Some(i) => {
            assert(find_seq(chars@, p@) is Some);
            let total = chars.len();
            let before = string_of(&chars, 0, i);
            let after = string_of(&chars, i + p.len(), chars.len());
            assert(before@ =~= text@.take(i as int));
            assert(after@ =~= text@.skip(i + pat@.len()));
            Some((before, after))
        },
        None => None,
    }
}

/// The pieces of a string separated by single spaces, empty pieces included,
/// as `str::split(' ')` gives them.
pub open spec fn spec_split_spaces(s: Seq<char>) -> Seq<Seq<char>>
    decreases s.len(),
{
    if s.len() == 0 {
        seq![Seq::empty()]
    } else if s.last() == ' ' {
        spec_split_spaces(s.drop_last()).push(Seq::empty())
    } else {
        let pieces = spec_split_spaces(s.drop_last());
        pieces.update(pieces.len() - 1, pieces.last().push(s.last()))
    }
}

proof fn lemma_split_spaces_nonempty(s: Seq<char>)
    ensures
        spec_split_spaces(s).len() >= 1,
    decreases s.len(),
{
    if s.len() > 0 {
        lemma_split_spaces_nonempty(s.drop_last());
    }
}

/// Splits a command line at each space.
pub fn split_spaces(text: &str) -> (pieces: Vec<String>)
    ensures
        pieces@.len() == spec_split_spaces(text@).len(),
        forall|i: int| 0 <= i < pieces@.len() ==> #[trigger] pieces@[i]@ == spec_split_spaces(text@)[i],
{
    let chars = chars_of(text);
    let mut pieces: Vec<String> = Vec::new();
    let mut current = String::new();
    let mut i: usize = 0;
    while i < chars.len()
        invariant
            i <= chars@.len(),
            chars@ == text@,
            pieces@.len() + 1 == spec_split_spaces(chars@.take(i as int)).len(),
            forall|k: int| 0 <= k < pieces@.len() ==> #[trigger] pieces@[k]@ == spec_split_spaces(chars@.take(i as int))[k],
            current@ == spec_split_spaces(chars@.take(i as int)).last(),
        decreases chars@.len() - i,
    {
        let c = chars[i];
        let ghost prev = spec_split_spaces(chars@.take(i as int));
        proof {
            lemma_split_spaces_nonempty(chars@.take(i as int));
            let t = chars@.take(i + 1);
            assert(t.drop_last() =~= chars@.take(i as int));
            assert(t.last() == c);
        }
        if c == ' ' {
            let mut piece = String::new();
            std::mem::swap(&mut piece, &mut current);
            pieces.push(piece);
        } else {
            push_char(&mut current, c);
        }
        i = i + 1;
    }
    assert(chars@.take(chars@.len() as int) =~= chars@);
    pieces.push(current);
    pieces
}

/// Whether two texts are equal.
pub fn text_equals(a: &str, b: &str) -> (equal: bool)
    ensures
        equal == (a@ == b@),
{
    let x = chars_of(a);
    let y = chars_of(b);
    if x.len() != y.len() {
        return false;
    }
    let mut i: usize = 0;
    while i < x.len()
        invariant
            i <= x@.len(),
            x@.len() == y@.len(),
            x@ == a@,
            y@ == b@,
            forall|k: int| 0 <= k < i ==> x@[k] == y@[k],
        decreases x@.len() - i,
    {
        if x[i] != y[i] {
            return false;
        }
        i = i + 1;
    }
    assert(x@ =~= y@);
    true
}

} // verus!
