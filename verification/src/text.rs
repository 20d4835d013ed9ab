//! Scanning of text: words between white space, and pieces between the
//! separators of a date field.
//!
//! Text is modelled as a sequence of characters. The scanners work on a
//! `Vec<char>` and return positions, so that a caller can cut the matching
//! part out of the string that the characters came from.

use vstd::prelude::*;
use vstd::string::StrSliceExecFns;

verus! {

/// The characters of `s`, in order.
pub fn chars_of(s: &str) -> (chars: Vec<char>)
    ensures
        chars@ == s@,
{
    let mut chars: Vec<char> = Vec::new();
    for c in it: s.chars()
        invariant
            chars@ == it.seq().take(it.index() as int),
    {
        chars.push(c);
    }
    chars
}

/// White space in the sense of ASCII: space, tab, line feed, form feed and
/// carriage return.
pub open spec fn is_ascii_space(c: char) -> bool {
    c == ' ' || c == '\t' || c == '\n' || c == '\x0C' || c == '\r'
}

/// Whether `c` is white space in the sense of ASCII.
pub fn ascii_space(c: char) -> (space: bool)
    ensures
        space == is_ascii_space(c),
{
    c == ' ' || c == '\t' || c == '\n' || c == '\x0C' || c == '\r'
}

/// The first position at or after `from` that holds no white space, or the
/// length of `s` if there is none.
pub open spec fn word_start(s: Seq<char>, from: int) -> int
    decreases s.len() - from,
{
    if from >= s.len() {
        s.len() as int
    } else if !is_ascii_space(s[from]) {
        from
    } else {
        word_start(s, from + 1)
    }
}

/// The first position at or after `from` that holds white space, or the
/// length of `s` if there is none.
pub open spec fn word_end(s: Seq<char>, from: int) -> int
    decreases s.len() - from,
{
    if from >= s.len() {
        s.len() as int
    } else if is_ascii_space(s[from]) {
        from
    } else {
        word_end(s, from + 1)
    }
}

/// Where the `n`-th word at or after `from` lies, counting from 0. A word is
/// a longest run of characters that are no white space.
pub open spec fn word_span(s: Seq<char>, from: int, n: nat) -> Option<(int, int)>
    decreases n,
{
    let start = word_start(s, from);
    if start >= s.len() {
        None
    } else if n == 0 {
        Some((start, word_end(s, start)))
    } else {
        word_span(s, word_end(s, start), (n - 1) as nat)
    }
}

/// The `n`-th word of `s`, counting from 0.
pub open spec fn word(s: Seq<char>, n: nat) -> Option<Seq<char>> {
    match word_span(s, 0, n) {
        Some((start, end)) => Some(s.subrange(start, end)),
        None => None,
    }
}

/// Skips white space from `from` on.
fn skip_spaces(chars: &Vec<char>, from: usize) -> (start: usize)
    requires
        from <= chars.len(),
    ensures
        start == word_start(chars@, from as int),
        from <= start <= chars.len(),
        start < chars.len() ==> !is_ascii_space(chars@[start as int]),
{
    let mut i: usize = from;
    while i < chars.len() && ascii_space(chars[i])
        invariant
            from <= i <= chars.len(),
            word_start(chars@, i as int) == word_start(chars@, from as int),
        decreases chars.len() - i,
    {
        i += 1;
    }
    i
}

/// Skips to the next white space from `from` on.
fn skip_word(chars: &Vec<char>, from: usize) -> (end: usize)
    requires
        from <= chars.len(),
    ensures
        end == word_end(chars@, from as int),
        from <= end <= chars.len(),
        from < chars.len() && !is_ascii_space(chars@[from as int]) ==> from < end,
{
    let mut i: usize = from;
    while i < chars.len() && !ascii_space(chars[i])
        invariant
            from <= i <= chars.len(),
            word_end(chars@, i as int) == word_end(chars@, from as int),
        decreases chars.len() - i,
    {
        i += 1;
    }
    i
}

/// Finds the `n`-th word of `chars`, counting from 0.
pub fn nth_word(chars: &Vec<char>, n: usize) -> (span: Option<(usize, usize)>)
    ensures
        match span {
            Some((start, end)) => word_span(chars@, 0, n as nat) == Some(
                (start as int, end as int),
            ) && start < end <= chars.len(),
            None => word_span(chars@, 0, n as nat) is None,
        },
{
    let mut from: usize = 0;
    let mut left: usize = n;
    loop
        invariant
            from <= chars.len(),
            word_span(chars@, from as int, left as nat) == word_span(chars@, 0, n as nat),
        decreases left,
    {
        let start = skip_spaces(chars, from);
        if start >= chars.len() {
            return None;
        }
        let end = skip_word(chars, start);
        if left == 0 {
            return Some((start, end));
        }
        from = end;
        left = left - 1;
    }
}

/// The six characters `&nbsp;` stand at position `at` of `s`.
pub open spec fn has_nbsp_at(s: Seq<char>, at: int) -> bool {
    &&& 0 <= at
    &&& at + 6 <= s.len()
    &&& s[at] == '&'
    &&& s[at + 1] == 'n'
    &&& s[at + 2] == 'b'
    &&& s[at + 3] == 's'
    &&& s[at + 4] == 'p'
    &&& s[at + 5] == ';'
}

/// The length of the separator that starts at position `at`: 1 for a hyphen,
/// 6 for `&nbsp;`, and 0 where no separator starts.
pub open spec fn separator_len(s: Seq<char>, at: int) -> int {
    if 0 <= at < s.len() && s[at] == '-' {
        1
    } else if has_nbsp_at(s, at) {
        6
    } else {
        0
    }
}

/// The first position at or after `from` at which a separator starts, or the
/// length of `s` if there is none.
pub open spec fn piece_end(s: Seq<char>, from: int) -> int
    decreases s.len() - from,
{
    if from >= s.len() {
        s.len() as int
    } else if separator_len(s, from) > 0 {
        from
    } else {
        piece_end(s, from + 1)
    }
}

/// Where the `n`-th piece at or after `from` lies, counting from 0. Pieces
/// are what hyphens and `&nbsp;` markers separate; a piece may be empty, and
/// a separator at the very end is followed by an empty piece.
pub open spec fn piece_span(s: Seq<char>, from: int, n: nat) -> Option<(int, int)>
    decreases n,
{
    let end = piece_end(s, from);
    if n == 0 {
        Some((from, end))
    } else if end >= s.len() {
        None
    } else {
        piece_span(s, end + separator_len(s, end), (n - 1) as nat)
    }
}

/// The `n`-th piece of `s`, counting from 0.
pub open spec fn piece(s: Seq<char>, n: nat) -> Option<Seq<char>> {
    match piece_span(s, 0, n) {
        Some((start, end)) => Some(s.subrange(start, end)),
        None => None,
    }
}

/// The length of the separator that starts at `at`, or 0.
fn separator_at(chars: &Vec<char>, at: usize) -> (len: usize)
    requires
        at < chars.len(),
    ensures
        len == separator_len(chars@, at as int),
        at + len <= chars.len(),
{
    if chars[at] == '-' {
        1
    } else if chars.len() - at >= 6 && chars[at] == '&' && chars[at + 1] == 'n' && chars[at + 2]
        == 'b' && chars[at + 3] == 's' && chars[at + 4] == 'p' && chars[at + 5] == ';' {
        6
    } else {
        0
    }
}

/// Skips to the next separator from `from` on.
fn skip_piece(chars: &Vec<char>, from: usize) -> (end: usize)
    requires
        from <= chars.len(),
    ensures
        end == piece_end(chars@, from as int),
        from <= end <= chars.len(),
{
    let mut i: usize = from;
    while i < chars.len() && separator_at(chars, i) == 0
        invariant
            from <= i <= chars.len(),
            piece_end(chars@, i as int) == piece_end(chars@, from as int),
        decreases chars.len() - i,
    {
        i += 1;
    }
    i
}

/// Finds the `n`-th piece of `chars`, counting from 0.
pub fn nth_piece(chars: &Vec<char>, n: usize) -> (span: Option<(usize, usize)>)
    ensures
        match span {
            Some((start, end)) => piece_span(chars@, 0, n as nat) == Some(
                (start as int, end as int),
            ) && start <= end <= chars.len(),
            None => piece_span(chars@, 0, n as nat) is None,
        },
{
    let mut from: usize = 0;
    let mut left: usize = n;
    loop
        invariant
            from <= chars.len(),
            piece_span(chars@, from as int, left as nat) == piece_span(chars@, 0, n as nat),
        decreases left,
    {
        let end = skip_piece(chars, from);
        if left == 0 {
            return Some((from, end));
        }
        if end >= chars.len() {
            return None;
        }
        from = end + separator_at(chars, end);
        left = left - 1;
    }
}

/// Whether two strings hold the same characters.
pub fn same_text(a: &str, b: &str) -> (same: bool)
    ensures
        same == (a@ == b@),
{
    let x = chars_of(a);
    let y = chars_of(b);
    if x.len() != y.len() {
        return false;
    }
    let mut i: usize = 0;
    while i < x.len()
        invariant
            i <= x.len(),
            x.len() == y.len(),
            x@ == a@,
            y@ == b@,
            forall|k: int| 0 <= k < i ==> x@[k] == y@[k],
        decreases x.len() - i,
    {
        if x[i] != y[i] {
            return false;
        }
        i += 1;
    }
    assert(x@ =~= y@);
    true
}

/// Whether `s` begins with `prefix`.
pub fn starts_with(s: &str, prefix: &str) -> (found: bool)
    ensures
        found == prefix@.is_prefix_of(s@),
{
    let x = chars_of(s);
    let y = chars_of(prefix);
    if y.len() > x.len() {
        return false;
    }
    let mut i: usize = 0;
    while i < y.len()
        invariant
            i <= y.len() <= x.len(),
            x@ == s@,
            y@ == prefix@,
            forall|k: int| 0 <= k < i ==> x@[k] == y@[k],
        decreases y.len() - i,
    {
        if x[i] != y[i] {
            assert(x@.subrange(0, y@.len() as int)[i as int] != y@[i as int]);
            return false;
        }
        i += 1;
    }
    assert(y@ =~= x@.subrange(0, y@.len() as int));
    true
}

/// Whether `c` occurs in `s`.
pub fn contains_char(s: &str, c: char) -> (found: bool)
    ensures
        found == s@.contains(c),
{
    let x = chars_of(s);
    let mut i: usize = 0;
    while i < x.len()
        invariant
            i <= x.len(),
            x@ == s@,
            forall|k: int| 0 <= k < i ==> x@[k] != c,
        decreases x.len() - i,
    {
        if x[i] == c {
            return true;
        }
        i += 1;
    }
    false
}

/// `s` without the run of `c` at its end.
pub open spec fn trim_trailing(s: Seq<char>, c: char) -> Seq<char>
    decreases s.len(),
{
    if s.len() > 0 && s.last() == c {
        trim_trailing(s.drop_last(), c)
    } else {
        s
    }
}

/// Cuts every `c` off the end of `s`.
pub fn trim_end(s: &str, c: char) -> (trimmed: &str)
    ensures
        trimmed@ == trim_trailing(s@, c),
{
    let x = chars_of(s);
    let mut end: usize = x.len();
    assert(x@.subrange(0, x@.len() as int) =~= x@);
    while end > 0 && x[end - 1] == c
        invariant
            end <= x.len(),
            x@ == s@,
            trim_trailing(x@.subrange(0, end as int), c) == trim_trailing(s@, c),
        decreases end,
    {
        assert(x@.subrange(0, end as int).drop_last() =~= x@.subrange(0, end - 1));
        end -= 1;
    }
    s.substring_char(0, end)
}

/// The first position at or after `from` that holds `separator`, or the
/// length of `s` if there is none.
pub open spec fn part_end(s: Seq<char>, separator: char, from: int) -> int
    decreases s.len() - from,
{
    if from >= s.len() {
        s.len() as int
    } else if s[from] == separator {
        from
    } else {
        part_end(s, separator, from + 1)
    }
}

/// Where the `n`-th part at or after `from` lies, counting from 0. Parts are
/// what the character `separator` separates; a part may be empty.
pub open spec fn part_span(s: Seq<char>, separator: char, from: int, n: nat) -> Option<(int, int)>
    decreases n,
{
    let end = part_end(s, separator, from);
    if n == 0 {
        Some((from, end))
    } else if end >= s.len() {
        None
    } else {
        part_span(s, separator, end + 1, (n - 1) as nat)
    }
}

/// The `n`-th part of `s`, counting from 0.
pub open spec fn part(s: Seq<char>, separator: char, n: nat) -> Option<Seq<char>> {
    match part_span(s, separator, 0, n) {
        Some((start, end)) => Some(s.subrange(start, end)),
        None => None,
    }
}

/// Skips to the next `separator` from `from` on.
fn skip_part(chars: &Vec<char>, separator: char, from: usize) -> (end: usize)
    requires
        from <= chars.len(),
    ensures
        end == part_end(chars@, separator, from as int),
        from <= end <= chars.len(),
{
    let mut i: usize = from;
    while i < chars.len() && chars[i] != separator
        invariant
            from <= i <= chars.len(),
            part_end(chars@, separator, i as int) == part_end(chars@, separator, from as int),
        decreases chars.len() - i,
    {
        i += 1;
    }
    i
}

/// Finds the `n`-th part of `chars`, counting from 0.
pub fn nth_part(chars: &Vec<char>, separator: char, n: usize) -> (span: Option<(usize, usize)>)
    ensures
        match span {
            Some((start, end)) => part_span(chars@, separator, 0, n as nat) == Some(
                (start as int, end as int),
            ) && start <= end <= chars.len(),
            None => part_span(chars@, separator, 0, n as nat) is None,
        },
{
    let mut from: usize = 0;
    let mut left: usize = n;
    loop
        invariant
            from <= chars.len(),
            part_span(chars@, separator, from as int, left as nat) == part_span(
                chars@,
                separator,
                0,
                n as nat,
            ),
        decreases left,
    {
        let end = skip_part(chars, separator, from);
        if left == 0 {
            return Some((from, end));
        }
        if end >= chars.len() {
            return None;
        }
        from = end + 1;
        left = left - 1;
    }
}

/// Where the `n`-th line of a text lies, counting from 0. Lines end at line
/// feeds; a carriage return right before the line feed belongs to the line
/// end, and what follows the last line feed is a line only if it is not
/// empty.
pub open spec fn line_span(s: Seq<char>, n: nat) -> Option<(int, int)> {
    match part_span(s, '\n', 0, n) {
        None => None,
        Some((start, end)) => if end < s.len() {
            if start < end && s[end - 1] == '\r' {
                Some((start, end - 1))
            } else {
                Some((start, end))
            }
        } else if start < end {
            Some((start, end))
        } else {
            None
        },
    }
}

/// The `n`-th line of `s`, counting from 0.
pub open spec fn line(s: Seq<char>, n: nat) -> Option<Seq<char>> {
    match line_span(s, n) {
        Some((start, end)) => Some(s.subrange(start, end)),
        None => None,
    }
}

/// A part that ends where the text ends is the last.
pub proof fn lemma_last_part(s: Seq<char>, separator: char, from: int, n: nat, more: nat)
    requires
        part_span(s, separator, from, n) matches Some((_, end)) && end >= s.len(),
        more > 0,
    ensures
        part_span(s, separator, from, n + more) is None,
    decreases n,
{
    if n > 0 {
        let end = part_end(s, separator, from);
        lemma_last_part(s, separator, end + 1, (n - 1) as nat, more);
    }
}

/// The lines of a text, in their order.
pub fn lines_of(text: &str) -> (lines: Vec<String>)
    ensures
        forall|n: nat| n < lines@.len() ==> line(text@, n) == Some(#[trigger] lines@[n as int]@),
        forall|n: nat| n >= lines@.len() ==> #[trigger] line(text@, n) is None,
{
    let chars = chars_of(text);
    let mut lines: Vec<String> = Vec::new();
    let mut from: usize = 0;
    loop
        invariant_except_break
            from <= chars.len(),
            chars@ == text@,
            part_span(chars@, '\n', 0, lines@.len()) == Some(
                (from as int, part_end(chars@, '\n', from as int)),
            ),
            forall|n: nat| n < lines@.len() ==> line(text@, n) == Some(#[trigger] lines@[n as int]@),
        ensures
            forall|n: nat| n < lines@.len() ==> line(text@, n) == Some(#[trigger] lines@[n as int]@),
            forall|n: nat| n >= lines@.len() ==> #[trigger] line(text@, n) is None,
        decreases chars.len() - from,
    {
        let end = skip_part(&chars, '\n', from);
        let ghost count = lines@.len();
        if end >= chars.len() {
            if from < end {
                lines.push(text.substring_char(from, end).to_owned());
            }
            proof {
                assert forall|n: nat| n >= lines@.len() implies #[trigger] line(text@, n) is None by {
                    if n > count {
                        lemma_last_part(chars@, '\n', 0, count, (n - count) as nat);
                    }
                }
            }
            break;
        }
        let stop: usize = if from < end && chars[end - 1] == '\r' {
            end - 1
        } else {
            end
        };
        lines.push(text.substring_char(from, stop).to_owned());
        proof {
            lemma_next_part(chars@, '\n', 0, count);
        }
        from = end + 1;
    }
    lines
}

/// The part after a part that stops short of the end begins one behind it.
pub proof fn lemma_next_part(s: Seq<char>, separator: char, from: int, n: nat)
    requires
        part_span(s, separator, from, n) matches Some((_, end)) && end < s.len(),
    ensures
        part_span(s, separator, from, n) matches Some((_, end)) && part_span(
            s,
            separator,
            from,
            n + 1,
        ) == Some((end + 1, part_end(s, separator, end + 1))),
    decreases n,
{
    let end = part_end(s, separator, from);
    if n > 0 {
        lemma_next_part(s, separator, end + 1, (n - 1) as nat);
    } else {
        assert(part_span(s, separator, end + 1, 0) == Some(
            (end + 1, part_end(s, separator, end + 1)),
        ));
    }
}

} // verus!
