//! The request line: the first line that a client sends.
//!
//! A request line is a run of words with white space between them. The first word is
//! the method, the second the target; what follows is not looked at.

use vstd::prelude::*;
use vstd::string::StrSliceExecFns;

verus! {

/// Whether `c` is white space: one of the characters that Unicode marks `White_Space`.
pub open spec fn is_space(c: char) -> bool {
    let code = c as u32;
    ||| 0x09 <= code <= 0x0d
    ||| code == 0x20
    ||| code == 0x85
    ||| code == 0xa0
    ||| code == 0x1680
    ||| 0x2000 <= code <= 0x200a
    ||| code == 0x2028
    ||| code == 0x2029
    ||| code == 0x202f
    ||| code == 0x205f
    ||| code == 0x3000
}

/// `line` without the white space that it ends with.
pub open spec fn trimmed(line: Seq<char>) -> Seq<char>
    decreases line.len(),
{
    if line.len() > 0 && is_space(line.last()) {
        trimmed(line.drop_last())
    } else {
        line
    }
}

/// How many white-space characters `text` begins with.
pub open spec fn blank_run(text: Seq<char>) -> nat
    decreases text.len(),
{
    if text.len() > 0 && is_space(text[0]) {
        1 + blank_run(text.drop_first())
    } else {
        0
    }
}

/// How many characters other than white space `text` begins with.
pub open spec fn word_run(text: Seq<char>) -> nat
    decreases text.len(),
{
    if text.len() > 0 && !is_space(text[0]) {
        1 + word_run(text.drop_first())
    } else {
        0
    }
}

/// The first word of `text` and what follows it, or `None` if `text` is all white space.
pub open spec fn next_word(text: Seq<char>) -> Option<(Seq<char>, Seq<char>)> {
    let from = text.skip(blank_run(text) as int);
    if from.len() == 0 {
        None
    } else {
        Some((from.take(word_run(from) as int), from.skip(word_run(from) as int)))
    }
}

/// The method and the target of a request line: its first two words. `None` if
/// the line has fewer than two.
pub open spec fn request_line(line: Seq<char>) -> Option<(Seq<char>, Seq<char>)> {
    match next_word(line) {
        Some((method, rest)) => match next_word(rest) {
            Some((target, _)) => Some((method, target)),
            None => None,
        },
        None => None,
    }
}

/// Whether `text` is a word: not empty, and without white space.
pub open spec fn is_word(text: Seq<char>) -> bool {
    text.len() > 0 && forall|i: int| 0 <= i < text.len() ==> !is_space(#[trigger] text[i])
}

/// A request line that has both a method and a target.
#[derive(Clone, Copy, Debug, PartialEq, Eq)]
pub struct RequestLine<'a> {
    /// The first word of the line.
    pub method: &'a str,
    /// The second word of the line.
    pub target: &'a str,
}

impl<'a> RequestLine<'a> {
    /// Whether both the method and the target are words.
    pub open spec fn is_well_formed(&self) -> bool {
        is_word(self.method@) && is_word(self.target@)
    }

    /// Whether the method is `GET`, the one method that is served.
    pub fn is_get(&self) -> (yes: bool)
        ensures
            yes == (self.method@ == "GET"@),
    {
        proof {
            reveal_strlit("GET");
        }
        let chars = chars_of(self.method);
        let yes = chars.len() == 3 && chars[0] == 'G' && chars[1] == 'E' && chars[2] == 'T';
        assert(yes ==> self.method@ =~= "GET"@);
        yes
    }
}

proof fn lemma_blank_run(text: Seq<char>, n: int)
    requires
        0 <= n <= text.len(),
        forall|i: int| 0 <= i < n ==> is_space(#[trigger] text[i]),
        n == text.len() || !is_space(text[n]),
    ensures
        blank_run(text) == n,
    decreases n,
{
    if n > 0 {
        lemma_blank_run(text.drop_first(), n - 1);
    }
}

proof fn lemma_word_run(text: Seq<char>, n: int)
    requires
        0 <= n <= text.len(),
        forall|i: int| 0 <= i < n ==> !is_space(#[trigger] text[i]),
        n == text.len() || is_space(text[n]),
    ensures
        word_run(text) == n,
    decreases n,
{
    if n > 0 {
        lemma_word_run(text.drop_first(), n - 1);
    }
}

proof fn lemma_blank_run_ends(text: Seq<char>)
    ensures
        blank_run(text) <= text.len(),
        forall|i: int| 0 <= i < blank_run(text) ==> is_space(#[trigger] text[i]),
        blank_run(text) < text.len() ==> !is_space(text[blank_run(text) as int]),
    decreases text.len(),
{
    if text.len() > 0 && is_space(text[0]) {
        let rest = text.drop_first();
        lemma_blank_run_ends(rest);
        assert forall|i: int| 0 <= i < blank_run(text) implies is_space(#[trigger] text[i]) by {
            if i > 0 {
                assert(text[i] == rest[i - 1]);
            }
        }
    }
}

proof fn lemma_word_run_ends(text: Seq<char>)
    ensures
        word_run(text) <= text.len(),
        forall|i: int| 0 <= i < word_run(text) ==> !is_space(#[trigger] text[i]),
        word_run(text) < text.len() ==> is_space(text[word_run(text) as int]),
        text.len() > 0 && !is_space(text[0]) ==> word_run(text) > 0,
    decreases text.len(),
{
    if text.len() > 0 && !is_space(text[0]) {
        let rest = text.drop_first();
        lemma_word_run_ends(rest);
        assert forall|i: int| 0 <= i < word_run(text) implies !is_space(#[trigger] text[i]) by {
            if i > 0 {
                assert(text[i] == rest[i - 1]);
            }
        }
    }
}

/// Trimming takes white space off the end, and nothing else.
///
/// For every line, the trimmed line is a prefix of it, what was taken off is white
/// space throughout, and what is left does not end with white space.
pub proof fn trimmed_is_the_line_without_its_blank_end(line: Seq<char>)
    ensures
        trimmed(line).len() <= line.len(),
        trimmed(line) == line.take(trimmed(line).len() as int),
        forall|i: int| trimmed(line).len() <= i < line.len() ==> is_space(#[trigger] line[i]),
        trimmed(line).len() > 0 ==> !is_space(trimmed(line).last()),
    decreases line.len(),
{
    if line.len() > 0 && is_space(line.last()) {
        let shorter = line.drop_last();
        trimmed_is_the_line_without_its_blank_end(shorter);
        assert forall|i: int| trimmed(line).len() <= i < line.len() implies is_space(
            #[trigger] line[i],
        ) by {
            if i < shorter.len() {
                assert(line[i] == shorter[i]);
            }
        }
    }
}

proof fn lemma_next_word_before_blank_end(text: Seq<char>, keep: int)
    requires
        0 <= keep <= text.len(),
        forall|i: int| keep <= i < text.len() ==> is_space(#[trigger] text[i]),
    ensures
        match (next_word(text.take(keep)), next_word(text)) {
            (Some((word, rest)), Some((same, more))) => {
                &&& word == same
                &&& rest.len() <= more.len()
                &&& rest == more.take(rest.len() as int)
                &&& forall|i: int| rest.len() <= i < more.len() ==> is_space(#[trigger] more[i])
            },
            (None, None) => true,
            _ => false,
        },
{
    let short = text.take(keep);
    lemma_blank_run_ends(short);
    lemma_blank_run_ends(text);
    let b = blank_run(short) as int;
    assert forall|i: int| 0 <= i < b implies is_space(#[trigger] text[i]) by {
        assert(text[i] == short[i]);
    }
    if b == keep {
        lemma_blank_run(text, text.len() as int);
    } else {
        lemma_blank_run(text, b);
        let from = text.skip(b);
        let from_short = short.skip(b);
        lemma_word_run_ends(from_short);
        let w = word_run(from_short) as int;
        assert forall|i: int| 0 <= i < w implies !is_space(#[trigger] from[i]) by {
            assert(from[i] == from_short[i]);
        }
        lemma_word_run(from, w);
    }
}

/// Trimming a line changes neither its method nor its target.
///
/// For every line, the trimmed line and the line itself have the same first two
/// words, or both have fewer than two.
pub proof fn trimming_keeps_the_request_line(line: Seq<char>)
    ensures
        request_line(trimmed(line)) == request_line(line),
{
    trimmed_is_the_line_without_its_blank_end(line);
    let keep = trimmed(line).len() as int;
    lemma_next_word_before_blank_end(line, keep);
    if let (Some((_, rest)), Some((_, more))) = (next_word(line.take(keep)), next_word(line)) {
        lemma_next_word_before_blank_end(more, rest.len() as int);
    }
}

/// What `next_word` finds is a word, and the text goes on with white space after it.
///
/// For every text that is not all white space, the word found is not empty and holds
/// no white space, and what follows it is empty or begins with white space.
pub proof fn next_word_is_a_word(text: Seq<char>)
    ensures
        match next_word(text) {
            Some((word, rest)) => is_word(word) && (rest.len() == 0 || is_space(rest[0])),
            None => forall|i: int| 0 <= i < text.len() ==> is_space(#[trigger] text[i]),
        },
{
    lemma_blank_run_ends(text);
    let from = text.skip(blank_run(text) as int);
    lemma_word_run_ends(from);
}

/// The method and the target of a request line are words.
///
/// For every line with at least two words, neither the method nor the target is
/// empty, and neither holds white space.
pub proof fn request_line_holds_words(line: Seq<char>)
    ensures
        match request_line(line) {
            Some((method, target)) => is_word(method) && is_word(target),
            None => true,
        },
{
    next_word_is_a_word(line);
    if let Some((_, rest)) = next_word(line) {
        next_word_is_a_word(rest);
    }
}

/// Whether `c` is white space.
pub fn is_whitespace(c: char) -> (yes: bool)
    ensures
        yes == is_space(c),
{
    let code: u32 = c as u32;
    (0x09 <= code && code <= 0x0d) || code == 0x20 || code == 0x85 || code == 0xa0 || code
        == 0x1680 || (0x2000 <= code && code <= 0x200a) || code == 0x2028 || code == 0x2029
        || code == 0x202f || code == 0x205f || code == 0x3000
}

/// The characters of `text`, one by one.
pub fn chars_of(text: &str) -> (out: Vec<char>)
    ensures
        out@ == text@,
{
    let mut out: Vec<char> = Vec::new();
    for c in it: text.chars()
        invariant
            it.seq() == text@,
            out@ == it.seq().take(it.index() as int),
    {
        out.push(c);
    }
    out
}

/// Removes the white space that `raw` ends with, the line break included.
pub fn trim_line(raw: &str) -> (line: &str)
    ensures
        line@ == trimmed(raw@),
{
    let chars = chars_of(raw);
    let mut end: usize = chars.len();
    assert(raw@.take(end as int) =~= raw@);
    while end > 0 && is_whitespace(chars[end - 1])
        invariant
            end <= chars.len(),
            chars@ == raw@,
            trimmed(raw@) == trimmed(raw@.take(end as int)),
        decreases end,
    {
        assert(raw@.take(end as int).drop_last() =~= raw@.take(end - 1));
        end = end - 1;
    }
    raw.substring_char(0, end)
}

/// Where the white space that starts at `from` ends.
fn skip_blanks(chars: &Vec<char>, from: usize) -> (to: usize)
    requires
        from <= chars.len(),
    ensures
        from <= to <= chars.len(),
        to - from == blank_run(chars@.skip(from as int)),
{
    let mut to: usize = from;
    while to < chars.len() && is_whitespace(chars[to])
        invariant
            from <= to <= chars.len(),
            forall|i: int| from <= i < to ==> is_space(#[trigger] chars@[i]),
        decreases chars.len() - to,
    {
        to = to + 1;
    }
    proof {
        lemma_blank_run(chars@.skip(from as int), to - from);
    }
    to
}

/// Where the word that starts at `from` ends.
fn skip_word(chars: &Vec<char>, from: usize) -> (to: usize)
    requires
        from <= chars.len(),
    ensures
        from <= to <= chars.len(),
        to - from == word_run(chars@.skip(from as int)),
{
    let mut to: usize = from;
    while to < chars.len() && !is_whitespace(chars[to])
        invariant
            from <= to <= chars.len(),
            forall|i: int| from <= i < to ==> !is_space(#[trigger] chars@[i]),
        decreases chars.len() - to,
    {
        to = to + 1;
    }
    proof {
        lemma_word_run(chars@.skip(from as int), to - from);
    }
    to
}

/// Reads the method and the target off a request line.
///
/// Returns `None` exactly when the line has fewer than two words.
pub fn parse_request_line<'a>(line: &'a str) -> (parsed: Option<RequestLine<'a>>)
    ensures
        match parsed {
            Some(found) => request_line(line@) == Some((found.method@, found.target@))
                && found.is_well_formed(),
            None => request_line(line@) is None,
        },
{
    proof {
        request_line_holds_words(line@);
    }
    let chars = chars_of(line);
    let a: usize = skip_blanks(&chars, 0);
    assert(chars@.skip(0) =~= chars@);
    if a == chars.len() {
        return None;
    }
    let b: usize = skip_word(&chars, a);
    let c: usize = skip_blanks(&chars, b);
    proof {
        assert(line@.skip(a as int).skip(b - a) =~= line@.skip(b as int));
        assert(line@.skip(b as int).skip(c - b) =~= line@.skip(c as int));
    }
    if c == chars.len() {
        return None;
    }
    let d: usize = skip_word(&chars, c);
    Some(RequestLine { method: line.substring_char(a, b), target: line.substring_char(c, d) })
}

} // verus!
