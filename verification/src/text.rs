//! Text as a sequence of characters: search, trimming and ASCII case folding.

use vstd::prelude::*;
use vstd::string::StringExecFns;

verus! {

/// `needle` stands in `text` at position `at`.
pub open spec fn occurs_at(text: Seq<char>, needle: Seq<char>, at: int) -> bool {
    &&& 0 <= at
    &&& at + needle.len() <= text.len()
    &&& text.subrange(at, at + needle.len()) == needle
}

/// `needle` stands somewhere in `text`.
pub open spec fn has_substring(text: Seq<char>, needle: Seq<char>) -> bool {
    exists|at: int| occurs_at(text, needle, at)
}

/// The lower-case form of an ASCII capital; any other character is itself.
pub open spec fn ascii_lower(c: char) -> char {
    if 'A' <= c <= 'Z' {
        ((c as u32) + 32) as char
    } else {
        c
    }
}

/// A text with every ASCII capital in lower case.
pub open spec fn ascii_lowercase(text: Seq<char>) -> Seq<char> {
    text.map_values(|c: char| ascii_lower(c))
}

/// The characters of a string, in order.
pub fn chars_of(s: &str) -> (chars: Vec<char>)
    ensures
        chars@ == s@,
{
    let mut chars: Vec<char> = Vec::new();
    for c in it: s.chars()
        invariant
            it.seq() == s@,
            chars@ == it.seq().take(it.index()),
    {
        chars.push(c);
    }
    chars
}

/// The lower-case form of one character.
pub fn to_ascii_lower(c: char) -> (low: char)
    ensures
        low == ascii_lower(c),
{
    if 'A' <= c && c <= 'Z' {
        let code: u32 = c as u32;
        let folded: u8 = (code + 32) as u8;
        folded as char
    } else {
        c
    }
}

/// The text with every ASCII capital in lower case.
pub fn to_ascii_lowercase(text: &Vec<char>) -> (low: Vec<char>)
    ensures
        low@ == ascii_lowercase(text@),
{
    let mut low: Vec<char> = Vec::new();
    let mut i: usize = 0;
    while i < text.len()
        invariant
            i <= text.len(),
            low@ == ascii_lowercase(text@.take(i as int)),
        decreases text.len() - i,
    {
        low.push(to_ascii_lower(text[i]));
        assert(low@ =~= ascii_lowercase(text@.take(i + 1)));
        i += 1;
    }
    assert(text@.take(text.len() as int) =~= text@);
    low
}

/// Whether `needle` stands in `text` at position `at`.
pub fn stands_at(text: &Vec<char>, needle: &Vec<char>, at: usize) -> (found: bool)
    ensures
        found == occurs_at(text@, needle@, at as int),
{
    if at > text.len() || needle.len() > text.len() - at {
        return false;
    }
    let mut k: usize = 0;
    while k < needle.len()
        invariant
            k <= needle.len(),
            at + needle.len() <= text.len(),
            forall|j: int| 0 <= j < k ==> text@[at + j] == needle@[j],
        decreases needle.len() - k,
    {
        if text[at + k] != needle[k] {
            assert(text@.subrange(at as int, at + needle.len())[k as int] != needle@[k as int]);
            return false;
        }
        k += 1;
    }
    assert(text@.subrange(at as int, at + needle.len()) =~= needle@);
    true
}

/// Whether `needle` stands somewhere in `text`.
pub fn contains(text: &Vec<char>, needle: &Vec<char>) -> (found: bool)
    ensures
        found == has_substring(text@, needle@),
{
    let mut at: usize = 0;
    while at < text.len()
        invariant
            at <= text.len(),
            forall|j: int| 0 <= j < at ==> !occurs_at(text@, needle@, j),
        decreases text.len() - at,
    {
        if stands_at(text, needle, at) {
            return true;
        }
        at += 1;
    }
    stands_at(text, needle, at)
}

/// Whether two texts are the same.
pub fn same_text(a: &Vec<char>, b: &Vec<char>) -> (same: bool)
    ensures
        same == (a@ == b@),
{
    if a.len() != b.len() {
        return false;
    }
    let mut i: usize = 0;
    while i < a.len()
        invariant
            i <= a.len(),
            a.len() == b.len(),
            forall|j: int| 0 <= j < i ==> a@[j] == b@[j],
        decreases a.len() - i,
    {
        if a[i] != b[i] {
            return false;
        }
        i += 1;
    }
    assert(a@ =~= b@);
    true
}

/// The character that a decimal digit is written with.
pub open spec fn digit_char(d: nat) -> char {
    (48 + d) as char
}

/// A number written in decimal digits, without a sign or leading zeros.
pub open spec fn decimal(n: nat) -> Seq<char>
    decreases n,
{
    if n < 10 {
        seq![digit_char(n)]
    } else {
        decimal(n / 10).push(digit_char(n % 10))
    }
}

/// One decimal digit as a text.
pub fn digit_text(d: u32) -> (text: &'static str)
    requires
        d < 10,
    ensures
        text@ == seq![digit_char(d as nat)],
{
    proof {
        reveal_strlit("0");
        reveal_strlit("1");
        reveal_strlit("2");
        reveal_strlit("3");
        reveal_strlit("4");
        reveal_strlit("5");
        reveal_strlit("6");
        reveal_strlit("7");
        reveal_strlit("8");
        reveal_strlit("9");
    }
    let text = if d == 0 {
        "0"
    } else if d == 1 {
        "1"
    } else if d == 2 {
        "2"
    } else if d == 3 {
        "3"
    } else if d == 4 {
        "4"
    } else if d == 5 {
        "5"
    } else if d == 6 {
        "6"
    } else if d == 7 {
        "7"
    } else if d == 8 {
        "8"
    } else {
        "9"
    };
    assert(text@ =~= seq![digit_char(d as nat)]);
    text
}

/// A number written in decimal digits.
pub fn decimal_text(n: u32) -> (text: String)
    ensures
        text@ == decimal(n as nat),
    decreases n,
{
    if n < 10 {
        String::from_str(digit_text(n))
    } else {
        let mut text = decimal_text(n / 10);
        text.append(digit_text(n % 10));
        assert(text@ =~= decimal(n as nat));
        text
    }
}

/// White space as Unicode defines it.
pub open spec fn is_space(c: char) -> bool {
    let code = c as u32;
    ||| 0x09 <= code <= 0x0D
    ||| code == 0x20
    ||| code == 0x85
    ||| code == 0xA0
    ||| code == 0x1680
    ||| 0x2000 <= code <= 0x200A
    ||| code == 0x2028
    ||| code == 0x2029
    ||| code == 0x202F
    ||| code == 0x205F
    ||| code == 0x3000
}

/// The text without the white space at its start.
pub open spec fn trim_start(text: Seq<char>) -> Seq<char>
    decreases text.len(),
{
    if text.len() > 0 && is_space(text[0]) {
        trim_start(text.drop_first())
    } else {
        text
    }
}

/// The text without the white space at its end.
pub open spec fn trim_end(text: Seq<char>) -> Seq<char>
    decreases text.len(),
{
    if text.len() > 0 && is_space(text.last()) {
        trim_end(text.drop_last())
    } else {
        text
    }
}

/// The text without the white space at its start and its end.
pub open spec fn trim(text: Seq<char>) -> Seq<char> {
    trim_end(trim_start(text))
}

/// The text without the run of `c` at its end.
pub open spec fn trim_end_char(text: Seq<char>, c: char) -> Seq<char>
    decreases text.len(),
{
    if text.len() > 0 && text.last() == c {
        trim_end_char(text.drop_last(), c)
    } else {
        text
    }
}

/// The first place of `c` in the text.
pub open spec fn first_index(text: Seq<char>, c: char) -> Option<int>
    decreases text.len(),
{
    if text.len() == 0 {
        None
    } else if text[0] == c {
        Some(0)
    } else {
        match first_index(text.drop_first(), c) {
            Some(i) => Some(i + 1),
            None => None,
        }
    }
}

/// The text begins with `prefix`.
pub open spec fn starts_with(text: Seq<char>, prefix: Seq<char>) -> bool {
    occurs_at(text, prefix, 0)
}

/// The lines of a text: what stands between its line feeds.
pub open spec fn split_lines(text: Seq<char>) -> Seq<Seq<char>>
    decreases text.len(),
{
    match first_index(text, '\n') {
        Some(i) => if 0 <= i < text.len() {
            seq![text.take(i)] + split_lines(text.skip(i + 1))
        } else {
            seq![text]
        },
        None => seq![text],
    }
}

/// What `first_index` finds: the place of the first `c`, or that there is none.
pub proof fn lemma_first_index(text: Seq<char>, c: char)
    ensures
        match first_index(text, c) {
            Some(i) => 0 <= i < text.len() && text[i] == c && forall|j: int|
                0 <= j < i ==> text[j] != c,
            None => forall|j: int| 0 <= j < text.len() ==> text[j] != c,
        },
    decreases text.len(),
{
    if text.len() > 0 && text[0] != c {
        let rest = text.drop_first();
        lemma_first_index(rest, c);
        match first_index(rest, c) {
            Some(i) => {
                assert forall|j: int| 0 <= j < i + 1 implies text[j] != c by {
                    if j > 0 {
                        assert(rest[j - 1] == text[j]);
                    }
                }
            },
            None => {
                assert forall|j: int| 0 <= j < text.len() implies text[j] != c by {
                    if j > 0 {
                        assert(rest[j - 1] == text[j]);
                    }
                }
            },
        }
    }
}

/// The place of the first `c` is what `first_index` says.
pub proof fn lemma_first_index_is(text: Seq<char>, c: char, at: int)
    requires
        0 <= at <= text.len(),
        forall|j: int| 0 <= j < at ==> text[j] != c,
        at < text.len() ==> text[at] == c,
    ensures
        first_index(text, c) == if at < text.len() {
            Some(at)
        } else {
            None
        },
{
    lemma_first_index(text, c);
}

/// Trimming the start leaves what begins at the first character that is no
/// white space.
pub proof fn lemma_trim_start(text: Seq<char>, from: int)
    requires
        0 <= from <= text.len(),
        forall|j: int| 0 <= j < from ==> is_space(text[j]),
        from < text.len() ==> !is_space(text[from]),
    ensures
        trim_start(text) == text.skip(from),
    decreases text.len(),
{
    if from == 0 {
        assert(text.skip(0) =~= text);
    } else {
        let rest = text.drop_first();
        assert forall|j: int| 0 <= j < from - 1 implies is_space(rest[j]) by {
            assert(rest[j] == text[j + 1]);
        }
        lemma_trim_start(rest, from - 1);
        assert(rest.skip(from - 1) =~= text.skip(from));
    }
}

/// Trimming the end leaves what ends with the last character that is no white
/// space.
pub proof fn lemma_trim_end(text: Seq<char>, to: int)
    requires
        0 <= to <= text.len(),
        forall|j: int| to <= j < text.len() ==> is_space(text[j]),
        to > 0 ==> !is_space(text[to - 1]),
    ensures
        trim_end(text) == text.take(to),
    decreases text.len(),
{
    if to == text.len() {
        assert(text.take(to) =~= text);
    } else {
        let front = text.drop_last();
        lemma_trim_end(front, to);
        assert(front.take(to) =~= text.take(to));
    }
}

/// Trimming a run of one character at the end leaves what ends with the last
/// character that is another.
pub proof fn lemma_trim_end_char(text: Seq<char>, c: char, to: int)
    requires
        0 <= to <= text.len(),
        forall|j: int| to <= j < text.len() ==> text[j] == c,
        to > 0 ==> text[to - 1] != c,
    ensures
        trim_end_char(text, c) == text.take(to),
    decreases text.len(),
{
    if to == text.len() {
        assert(text.take(to) =~= text);
    } else {
        let front = text.drop_last();
        lemma_trim_end_char(front, c, to);
        assert(front.take(to) =~= text.take(to));
    }
}

/// Whether a character is white space.
pub fn is_white_space(c: char) -> (space: bool)
    ensures
        space == is_space(c),
{
    let code: u32 = c as u32;
    (0x09 <= code && code <= 0x0D) || code == 0x20 || code == 0x85 || code == 0xA0 || code
        == 0x1680 || (0x2000 <= code && code <= 0x200A) || code == 0x2028 || code == 0x2029
        || code == 0x202F || code == 0x205F || code == 0x3000
}

/// The part of a text from `from` up to `to`.
pub fn slice(text: &Vec<char>, from: usize, to: usize) -> (part: Vec<char>)
    requires
        from <= to <= text.len(),
    ensures
        part@ == text@.subrange(from as int, to as int),
{
    let mut part: Vec<char> = Vec::new();
    let mut i: usize = from;
    while i < to
        invariant
            from <= i <= to <= text.len(),
            part@ == text@.subrange(from as int, i as int),
        decreases to - i,
    {
        part.push(text[i]);
        assert(part@ =~= text@.subrange(from as int, i + 1));
        i += 1;
    }
    part
}

/// The text without the white space at its start and its end.
pub fn trimmed(text: &Vec<char>) -> (inner: Vec<char>)
    ensures
        inner@ == trim(text@),
{
    let mut from: usize = 0;
    while from < text.len() && is_white_space(text[from])
        invariant
            from <= text.len(),
            forall|j: int| 0 <= j < from ==> is_space(text@[j]),
        decreases text.len() - from,
    {
        from += 1;
    }
    let mut to: usize = text.len();
    while to > from && is_white_space(text[to - 1])
        invariant
            from <= to <= text.len(),
            forall|j: int| to <= j < text.len() ==> is_space(text@[j]),
        decreases to,
    {
        to -= 1;
    }
    proof {
        lemma_trim_start(text@, from as int);
        let rest = text@.skip(from as int);
        assert forall|j: int| to - from <= j < rest.len() implies is_space(rest[j]) by {
            assert(rest[j] == text@[j + from]);
        }
        if to > from {
            assert(rest[to - from - 1] == text@[to - 1]);
        }
        lemma_trim_end(rest, to - from);
        assert(rest.take(to - from) =~= text@.subrange(from as int, to as int));
    }
    slice(text, from, to)
}

/// The text without the run of `c` at its end.
pub fn without_trailing(text: &Vec<char>, c: char) -> (inner: Vec<char>)
    ensures
        inner@ == trim_end_char(text@, c),
{
    let mut to: usize = text.len();
    while to > 0 && text[to - 1] == c
        invariant
            to <= text.len(),
            forall|j: int| to <= j < text.len() ==> text@[j] == c,
        decreases to,
    {
        to -= 1;
    }
    proof {
        lemma_trim_end_char(text@, c, to as int);
        assert(text@.take(to as int) =~= text@.subrange(0, to as int));
    }
    slice(text, 0, to)
}

/// The first place of `c` in the text at or after `from`.
pub fn find_char(text: &Vec<char>, c: char, from: usize) -> (found: Option<usize>)
    requires
        from <= text.len(),
    ensures
        found matches Some(at) ==> from <= at < text.len() && first_index(
            text@.skip(from as int),
            c,
        ) == Some(at - from),
        found is None ==> first_index(text@.skip(from as int), c) is None,
{
    let mut at: usize = from;
    while at < text.len() && text[at] != c
        invariant
            from <= at <= text.len(),
            forall|j: int| from <= j < at ==> text@[j] != c,
        decreases text.len() - at,
    {
        at += 1;
    }
    proof {
        let rest = text@.skip(from as int);
        assert forall|j: int| 0 <= j < at - from implies rest[j] != c by {
            assert(rest[j] == text@[from + j]);
        }
        lemma_first_index_is(rest, c, at - from);
    }
    if at < text.len() {
        Some(at)
    } else {
        None
    }
}

/// The texts that a list of character vectors stands for.
pub open spec fn views_of(texts: Seq<Vec<char>>) -> Seq<Seq<char>> {
    texts.map_values(|text: Vec<char>| text@)
}

/// The lines of a text.
pub fn lines_of(text: &Vec<char>) -> (lines: Vec<Vec<char>>)
    ensures
        views_of(lines@) == split_lines(text@),
{
    let mut lines: Vec<Vec<char>> = Vec::new();
    let mut from: usize = 0;
    assert(text@.skip(0) =~= text@);
    loop
        invariant
            from <= text.len(),
            split_lines(text@) == views_of(lines@) + split_lines(text@.skip(from as int)),
        decreases text.len() - from,
    {
        let ghost rest = text@.skip(from as int);
        let ghost before = views_of(lines@);
        proof {
            lemma_first_index(rest, '\n');
        }
        match find_char(text, '\n', from) {
            Some(end) => {
                lines.push(slice(text, from, end));
                proof {
                    assert(rest.take(end - from) =~= text@.subrange(from as int, end as int));
                    assert(rest.skip(end - from + 1) =~= text@.skip(end + 1));
                    assert(views_of(lines@) =~= before.push(rest.take(end - from)));
                    assert(before + (seq![rest.take(end - from)] + split_lines(
                        rest.skip(end - from + 1),
                    )) =~= before.push(rest.take(end - from)) + split_lines(
                        rest.skip(end - from + 1),
                    ));
                }
                from = end + 1;
            },
            None => {
                lines.push(slice(text, from, text.len()));
                proof {
                    assert(rest =~= text@.subrange(from as int, text.len() as int));
                    assert(views_of(lines@) =~= before.push(rest));
                    assert(before + seq![rest] =~= before.push(rest));
                }
                return lines;
            },
        }
    }
}

/// Whether the text begins with `prefix`.
pub fn begins_with(text: &Vec<char>, prefix: &Vec<char>) -> (found: bool)
    ensures
        found == starts_with(text@, prefix@),
{
    stands_at(text, prefix, 0)
}

/// `String::from_iter` over the characters: the string that is made of them,
/// in their order.
#[verifier::external_body]
pub(crate) fn string_of(chars: &Vec<char>) -> (text: String)
    ensures
        text@ == chars@,
{
    String::from_iter(chars.iter())
}

} // verus!
