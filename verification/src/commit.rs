use vstd::prelude::*;

use crate::text::{chars_of, opt_string_view, string_of};

verus! {

broadcast use vstd::string::group_string_axioms;

/// Whether a character has the Unicode property White_Space: tab, line
/// feed, vertical tab, form feed, carriage return, space, next line,
/// no-break space, ogham space mark, the spaces from en quad to hair space,
/// line and paragraph separator, narrow no-break space, medium mathematical
/// space and ideographic space.
pub open spec fn unicode_white_space(c: char) -> bool {
    let n = c as u32;
    (0x9 <= n && n <= 0xd) || n == 0x20 || n == 0x85 || n == 0xa0 || n == 0x1680 || (0x2000 <= n && n <= 0x200a)
        || n == 0x2028 || n == 0x2029 || n == 0x202f || n == 0x205f || n == 0x3000
}

/// Whether a character is white space, as `char::is_whitespace` tells.
pub fn is_whitespace(c: char) -> (white: bool)
    ensures
        white == unicode_white_space(c),
{
    let n = c as u32;
    (0x9 <= n && n <= 0xd) || n == 0x20 || n == 0x85 || n == 0xa0 || n == 0x1680 || (0x2000 <= n && n <= 0x200a)
        || n == 0x2028 || n == 0x2029 || n == 0x202f || n == 0x205f || n == 0x3000
}

/// A text without its leading white space.
pub open spec fn trim_start(s: Seq<char>) -> Seq<char>
    decreases s.len(),
{
    if s.len() > 0 && unicode_white_space(s[0]) {
        trim_start(s.drop_first())
    } else {
        s
    }
}

/// A text without its trailing white space.
pub open spec fn trim_end(s: Seq<char>) -> Seq<char>
    decreases s.len(),
{
    if s.len() > 0 && unicode_white_space(s.last()) {
        trim_end(s.drop_last())
    } else {
        s
    }
}

/// A text without leading and trailing white space, as `str::trim` gives it.
pub open spec fn spec_trim(s: Seq<char>) -> Seq<char> {
    trim_end(trim_start(s))
}

/// A string with its leading and trailing white space removed: `start` is
/// where the first character that is not white space stands, `end` is just
/// past the last one.
pub open spec fn is_trim(s: Seq<char>, start: int, end: int) -> bool {
    &&& 0 <= start <= end <= s.len()
    &&& forall|j: int| 0 <= j < start ==> unicode_white_space(#[trigger] s[j])
    &&& forall|j: int| end <= j < s.len() ==> unicode_white_space(#[trigger] s[j])
    &&& start < end ==> !unicode_white_space(s[start]) && !unicode_white_space(s[end - 1])
    &&& start == end ==> start == s.len()
}

proof fn lemma_trim_start(s: Seq<char>, k: int)
    requires
        0 <= k <= s.len(),
        forall|j: int| 0 <= j < k ==> unicode_white_space(#[trigger] s[j]),
        k < s.len() ==> !unicode_white_space(s[k]),
    ensures
        trim_start(s) == s.skip(k),
    decreases k,
{
    if k == 0 {
        assert(s.skip(0) =~= s);
    } else {
        assert(unicode_white_space(s[0]));
        let t = s.drop_first();
        assert forall|j: int| 0 <= j < k - 1 implies unicode_white_space(#[trigger] t[j]) by {
            assert(t[j] == s[j + 1]);
        }
        if k < s.len() {
            assert(t[k - 1] == s[k]);
        }
        lemma_trim_start(t, k - 1);
        assert(t.skip(k - 1) =~= s.skip(k));
    }
}

proof fn lemma_trim_end(s: Seq<char>, e: int)
    requires
        0 <= e <= s.len(),
        forall|j: int| e <= j < s.len() ==> unicode_white_space(#[trigger] s[j]),
        e > 0 ==> !unicode_white_space(s[e - 1]),
    ensures
        trim_end(s) == s.take(e),
    decreases s.len() - e,
{
    if e == s.len() {
        assert(s.take(e) =~= s);
    } else {
        assert(unicode_white_space(s[s.len() - 1]));
        let t = s.drop_last();
        assert forall|j: int| e <= j < t.len() implies unicode_white_space(#[trigger] t[j]) by {
            assert(t[j] == s[j]);
        }
        if e > 0 {
            assert(t[e - 1] == s[e - 1]);
        }
        lemma_trim_end(t, e);
        assert(t.take(e) =~= s.take(e));
    }
}

/// The bounds of a trim give `spec_trim`.
proof fn lemma_is_trim(s: Seq<char>, start: int, end: int)
    requires
        is_trim(s, start, end),
    ensures
        spec_trim(s) == s.subrange(start, end),
{
    lemma_trim_start(s, start);
    let t = s.skip(start);
    assert forall|j: int| end - start <= j < t.len() implies unicode_white_space(#[trigger] t[j]) by {
        assert(t[j] == s[j + start]);
    }
    if end - start > 0 {
        assert(t[end - start - 1] == s[end - 1]);
    }
    lemma_trim_end(t, end - start);
    assert(t.take(end - start) =~= s.subrange(start, end));
}

/// The range of a text that remains when the characters marked white at
/// its two ends are removed: it starts at the first character not marked
/// white and ends after the last one; a text marked white throughout leaves
/// the empty range at its end.
pub fn trim_range(white: &Vec<bool>) -> (range: (usize, usize))
    ensures
        range.0 <= range.1 <= white@.len(),
        forall|j: int| 0 <= j < range.0 ==> #[trigger] white@[j],
        range.0 < white@.len() ==> !white@[range.0 as int],
        forall|j: int| range.1 <= j < white@.len() ==> #[trigger] white@[j],
        range.0 < range.1 ==> !white@[range.1 - 1],
{
    let n = white.len();
    let mut start: usize = 0;
    while start < n && white[start]
        invariant
            start <= n,
            n == white@.len(),
            forall|j: int| 0 <= j < start ==> #[trigger] white@[j],
        decreases n - start,
    {
        start = start + 1;
    }
    let mut end: usize = n;
    while end > start && white[end - 1]
        invariant
            start <= end <= n,
            n == white@.len(),
            forall|j: int| end <= j < n ==> #[trigger] white@[j],
        decreases end,
    {
        end = end - 1;
    }
    (start, end)
}

/// Removes leading and trailing white space.
pub fn trim(text: &str) -> (trimmed: String)
    ensures
        trimmed@ == spec_trim(text@),
{
    let chars = chars_of(text);
    let mut white: Vec<bool> = Vec::new();
    let mut i: usize = 0;
    while i < chars.len()
        invariant
            i <= chars@.len(),
            white@.len() == i,
            forall|j: int| 0 <= j < i ==> #[trigger] white@[j] == unicode_white_space(chars@[j]),
        decreases chars@.len() - i,
    {
        white.push(is_whitespace(chars[i]));
        i = i + 1;
    }
    let (start, end) = trim_range(&white);
    let trimmed = string_of(&chars, start, end);
    assert(is_trim(text@, start as int, end as int)) by {
        assert forall|j: int| 0 <= j < start implies unicode_white_space(#[trigger] text@[j]) by {
            assert(white@[j]);
        }
        assert forall|j: int| end <= j < text@.len() implies unicode_white_space(#[trigger] text@[j]) by {
            assert(white@[j]);
        }
        if start < end {
            assert(!white@[start as int]);
            assert(!white@[end - 1]);
        }
    }
    proof {
        lemma_is_trim(text@, start as int, end as int);
    }
    trimmed
}

/// What an optional setting makes of an entered text: the text without
/// surrounding white space, or nothing when only white space was entered.
pub open spec fn spec_setting(text: Seq<char>) -> Option<Seq<char>> {
    if spec_trim(text).len() == 0 {
        None
    } else {
        Some(spec_trim(text))
    }
}


/// An optional commit setting: the entered text without surrounding white
/// space, or nothing when only white space was entered.
pub fn optional_setting(text: &str) -> (setting: Option<String>)
    ensures
        opt_string_view(setting) == spec_setting(text@),
{
    let trimmed = trim(text);
    if trimmed.as_str().is_empty() {
        None
    } else {
        Some(trimmed)
    }
}

/// The reference of a committed image, from the entered repository and tag:
/// none when the repository holds only white space; otherwise the trimmed
/// repository, a colon and the trimmed tag, `latest` when no tag is given.
pub fn commit_reference(repo: &str, tag: &str) -> (reference: Option<String>)
    ensures
        spec_trim(repo@).len() == 0 ==> reference is None,
        spec_trim(repo@).len() > 0 ==> reference is Some && reference->0@ == spec_trim(repo@) + ":"@ + (if spec_trim(
            tag@,
        ).len() == 0 {
            "latest"@
        } else {
            spec_trim(tag@)
        }),
{
    let repo = trim(repo);
    let tag = trim(tag);
    if repo.as_str().is_empty() {
        return None;
    }
    let mut reference = repo;
    reference.append(":");
    if tag.as_str().is_empty() {
        reference.append("latest");
    } else {
        reference.append(tag.as_str());
    }
    Some(reference)
}

/// The options of a commit as the commit dialog collects them.
#[derive(Clone, Debug)]
pub struct CommitOptions {
    pub author: Option<String>,
    pub changes: Vec<String>,
    pub comment: Option<String>,
    pub format: Option<String>,
    pub pause: bool,
    pub repo: Option<String>,
    pub tag: Option<String>,
}

/// Collects the commit options: author, comment, repository and tag are set
/// only when they hold more than white space, and then without the white
/// space around them.
pub fn commit_options(author: &str, comment: &str, repo: &str, tag: &str, changes: Vec<String>, format: Option<String>, pause: bool) -> (options: CommitOptions)
    ensures
        opt_string_view(options.author) == spec_setting(author@),
        opt_string_view(options.comment) == spec_setting(comment@),
        opt_string_view(options.repo) == spec_setting(repo@),
        opt_string_view(options.tag) == spec_setting(tag@),
        options.changes == changes,
        options.format == format,
        options.pause == pause,
{
    CommitOptions {
        author: optional_setting(author),
        changes,
        comment: optional_setting(comment),
        format,
        pause,
        repo: optional_setting(repo),
        tag: optional_setting(tag),
    }
}

/// The text a setting shows when the options dialog opens with it: the
/// setting itself, or nothing.
pub open spec fn setting_text(setting: Option<Seq<char>>) -> Seq<char> {
    match setting {
        Some(s) => s,
        None => Seq::empty(),
    }
}

/// The options dialog gives back the settings it opened with: a setting
/// that is absent, or present without surrounding white space and not
/// empty, is what the dialog collects again from the text it shows.
pub proof fn lemma_setting_round_trip(setting: Option<Seq<char>>)
    requires
        match setting {
            Some(s) => s.len() > 0 && !unicode_white_space(s[0]) && !unicode_white_space(s.last()),
            None => true,
        },
    ensures
        spec_setting(setting_text(setting)) == setting,
{
    match setting {
        Some(s) => {
            assert(is_trim(s, 0, s.len() as int));
            lemma_is_trim(s, 0, s.len() as int);
            assert(s.subrange(0, s.len() as int) =~= s);
        },
        None => {
            assert(spec_trim(Seq::<char>::empty()) =~= Seq::<char>::empty());
        },
    }
}

/// The setting an entered text gives has no white space around it, so
/// collecting it again changes nothing.
pub proof fn lemma_setting_is_trimmed(text: Seq<char>)
    ensures
        match spec_setting(text) {
            Some(s) => s.len() > 0 && !unicode_white_space(s[0]) && !unicode_white_space(s.last()),
            None => true,
        },
{
    lemma_trim_shape(text);
}

proof fn lemma_trim_start_shape(s: Seq<char>)
    ensures
        trim_start(s).len() > 0 ==> !unicode_white_space(trim_start(s)[0]),
        trim_start(s).len() <= s.len(),
        trim_start(s) == s.skip(s.len() - trim_start(s).len()),
    decreases s.len(),
{
    if s.len() > 0 && unicode_white_space(s[0]) {
        lemma_trim_start_shape(s.drop_first());
        assert(s.drop_first().skip(s.drop_first().len() - trim_start(s.drop_first()).len()) =~= s.skip(
            s.len() - trim_start(s).len(),
        ));
    } else {
        assert(s.skip(0) =~= s);
    }
}

proof fn lemma_trim_end_shape(s: Seq<char>)
    ensures
        trim_end(s).len() > 0 ==> !unicode_white_space(trim_end(s).last()),
        trim_end(s) == s.take(trim_end(s).len() as int),
        trim_end(s).len() <= s.len(),
    decreases s.len(),
{
    if s.len() > 0 && unicode_white_space(s.last()) {
        lemma_trim_end_shape(s.drop_last());
        assert(s.drop_last().take(trim_end(s.drop_last()).len() as int) =~= s.take(trim_end(s).len() as int));
    } else {
        assert(s.take(s.len() as int) =~= s);
    }
}

proof fn lemma_trim_shape(s: Seq<char>)
    ensures
        spec_trim(s).len() > 0 ==> !unicode_white_space(spec_trim(s)[0]) && !unicode_white_space(spec_trim(s).last()),
{
    lemma_trim_start_shape(s);
    let t = trim_start(s);
    lemma_trim_end_shape(t);
    if spec_trim(s).len() > 0 {
        assert(spec_trim(s)[0] == t[0]);
    }
}

} // verus!
