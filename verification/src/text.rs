//! Character sequences: lines, pieces, trimming, joining.
//!
//! Every function here works on the characters of a text, so that a contract
//! speaks of the sequence `text@` alone.
use vstd::prelude::*;

verus! {

/// `String::push` appends one character and changes nothing else.
pub assume_specification[ String::push ](text: &mut String, c: char)
    ensures
        final(text)@ == old(text)@.push(c),
;

/// The line ending that generated text is written with.
#[derive(Clone, Copy, Debug, PartialEq, Eq, Structural)]
pub enum Eol {
    /// A line feed.
    Lf,
    /// A carriage return and a line feed.
    CrLf,
}

impl Eol {
    /// The characters of the line ending.
    pub open spec fn chars(self) -> Seq<char> {
        match self {
            Eol::Lf => seq!['\n'],
            Eol::CrLf => seq!['\r', '\n'],
        }
    }

    /// The line ending as text.
    pub fn as_str(self) -> (ending: &'static str)
        ensures
            ending@ == self.chars(),
    {
        proof {
            reveal_strlit("\n");
            reveal_strlit("\r\n");
        }
        match self {
            Eol::Lf => "\n",
            Eol::CrLf => "\r\n",
        }
    }
}

/// The texts of a list of strings.
pub open spec fn texts(list: Seq<String>) -> Seq<Seq<char>> {
    list.map_values(|item: String| item@)
}

/// The text of an optional string.
pub open spec fn opt_text(item: Option<String>) -> Option<Seq<char>> {
    match item {
        Some(text) => Some(text@),
        None => None,
    }
}

/// The text of an optional string slice.
pub open spec fn opt_str(item: Option<&str>) -> Option<Seq<char>> {
    match item {
        Some(text) => Some(text@),
        None => None,
    }
}

/// The characters of a text.
pub fn to_chars(text: &str) -> (chars: Vec<char>)
    ensures
        chars@ == text@,
{
    let mut chars: Vec<char> = Vec::new();
    for c in it: text.chars()
        invariant
            it.seq() == text@,
            chars@ == text@.take(it.index() as int),
    {
        chars.push(c);
        assert(chars@ == text@.take(it.index() as int + 1));
    }
    assert(text@.take(text@.len() as int) == text@);
    chars
}

/// The characters from `start` up to `end` as a string.
pub fn range_string(chars: &Vec<char>, start: usize, end: usize) -> (text: String)
    requires
        start <= end <= chars@.len(),
    ensures
        text@ == chars@.subrange(start as int, end as int),
{
    let mut text = String::new();
    let mut at: usize = start;
    while at < end
        invariant
            start <= at <= end <= chars@.len(),
            text@ == chars@.subrange(start as int, at as int),
        decreases end - at,
    {
        text.push(chars[at]);
        at = at + 1;
        assert(chars@.subrange(start as int, at as int) == chars@.subrange(
            start as int,
            at - 1,
        ).push(chars@[at - 1]));
    }
    text
}

/// Whether two lists of characters are equal.
pub fn same_chars(left: &Vec<char>, right: &Vec<char>) -> (same: bool)
    ensures
        same == (left@ == right@),
{
    if left.len() != right.len() {
        return false;
    }
    let mut at: usize = 0;
    while at < left.len()
        invariant
            at <= left@.len() == right@.len(),
            left@.take(at as int) == right@.take(at as int),
        decreases left@.len() - at,
    {
        if left[at] != right[at] {
            return false;
        }
        at = at + 1;
        assert(left@.take(at as int) == left@.take(at - 1).push(left@[at - 1]));
        assert(right@.take(at as int) == right@.take(at - 1).push(right@[at - 1]));
    }
    assert(left@.take(at as int) == left@);
    assert(right@.take(at as int) == right@);
    true
}

// ---- Searching ----

/// Whether `part` stands in `text` at index `at`.
pub open spec fn stands_at(text: Seq<char>, part: Seq<char>, at: int) -> bool {
    0 <= at && at + part.len() <= text.len() && text.subrange(at, at + part.len()) == part
}

/// Whether `part` stands somewhere in `text`.
pub open spec fn contains(text: Seq<char>, part: Seq<char>) -> bool {
    exists|at: int| stands_at(text, part, at)
}

/// The first index at which `part` stands in `text`.
pub open spec fn find(text: Seq<char>, part: Seq<char>) -> Option<int>
    decreases text.len(),
{
    if part.is_prefix_of(text) {
        Some(0)
    } else if text.len() == 0 {
        None
    } else {
        match find(text.drop_first(), part) {
            Some(at) => Some(at + 1),
            None => None,
        }
    }
}

/// `find` gives the smallest index at which the part stands, and nothing
/// exactly where it stands nowhere.
pub proof fn find_is_first(text: Seq<char>, part: Seq<char>)
    ensures
        match find(text, part) {
            Some(at) => stands_at(text, part, at) && forall|i: int|
                0 <= i < at ==> !stands_at(text, part, i),
            None => !contains(text, part),
        },
    decreases text.len(),
{
    if part.is_prefix_of(text) {
        assert(stands_at(text, part, 0));
    } else if text.len() == 0 {
        if contains(text, part) {
            let at = choose|at: int| stands_at(text, part, at);
            assert(text.subrange(at, at + part.len()) == text.subrange(0, part.len() as int));
        }
    } else {
        let rest = text.drop_first();
        find_is_first(rest, part);
        assert(!stands_at(text, part, 0));
        assert forall|i: int| i >= 1 implies stands_at(text, part, i) == stands_at(
            rest,
            part,
            i - 1,
        ) by {
            if i + part.len() <= text.len() {
                assert(text.subrange(i, i + part.len()) == rest.subrange(
                    i - 1,
                    i - 1 + part.len(),
                ));
            }
        }
        if find(rest, part) is None && contains(text, part) {
            let at = choose|at: int| stands_at(text, part, at);
            assert(stands_at(rest, part, at - 1));
        }
    }
}

/// Whether `part` stands in `chars` at index `at`.
pub fn part_at(chars: &Vec<char>, part: &Vec<char>, at: usize) -> (stands: bool)
    requires
        at <= chars@.len(),
    ensures
        stands == part@.is_prefix_of(chars@.skip(at as int)),
        stands == stands_at(chars@, part@, at as int),
{
    let total: usize = chars.len();
    if part.len() > total - at {
        return false;
    }
    let mut done: usize = 0;
    while done < part.len()
        invariant
            done <= part@.len(),
            at + part@.len() <= chars@.len() == total,
            forall|i: int| 0 <= i < done ==> part@[i] == chars@[at + i],
        decreases part@.len() - done,
    {
        if part[done] != chars[at + done] {
            assert(chars@.skip(at as int)[done as int] == chars@[at + done]);
            assert(chars@.subrange(at as int, at + part@.len())[done as int] == chars@[at + done]);
            assert(chars@.skip(at as int).subrange(0, part@.len() as int)[done as int] == chars@[at
                + done]);
            return false;
        }
        done = done + 1;
    }
    assert(chars@.subrange(at as int, at + part@.len()) == part@);
    assert(chars@.skip(at as int).subrange(0, part@.len() as int) == part@);
    true
}

/// The first index, counted from `start`, at which `part` stands in `chars`.
pub fn find_from(chars: &Vec<char>, part: &Vec<char>, start: usize) -> (found: Option<usize>)
    requires
        start <= chars@.len(),
    ensures
        match (found, find(chars@.skip(start as int), part@)) {
            (Some(at), Some(offset)) => offset >= 0 && at == start + offset && at + part@.len()
                <= chars@.len(),
            (None, None) => true,
            _ => false,
        },
{
    let mut at: usize = start;
    proof {
        find_is_first(chars@.skip(start as int), part@);
    }
    loop
        invariant
            start <= at <= chars@.len(),
            match (find(chars@.skip(start as int), part@), find(chars@.skip(at as int), part@)) {
                (Some(from_start), Some(from_here)) => start + from_start == at + from_here
                    && from_here >= 0,
                (None, None) => true,
                _ => false,
            },
        decreases chars@.len() - at,
    {
        if part_at(chars, part, at) {
            return Some(at);
        }
        if at == chars.len() {
            return None;
        }
        assert(chars@.skip(at as int).drop_first() == chars@.skip(at + 1));
        proof {
            find_is_first(chars@.skip(at + 1), part@);
        }
        at = at + 1;
    }
}

/// Whether a character occurs in a text.
pub fn has_char(text: &str, wanted: char) -> (has: bool)
    ensures
        has == text@.contains(wanted),
{
    let chars = to_chars(text);
    let mut at: usize = 0;
    while at < chars.len()
        invariant
            at <= chars@.len(),
            chars@ == text@,
            forall|i: int| 0 <= i < at ==> chars@[i] != wanted,
        decreases chars@.len() - at,
    {
        if chars[at] == wanted {
            return true;
        }
        at = at + 1;
    }
    false
}

// ---- Pieces ----

/// The pieces of a text between the occurrences of one character.
pub open spec fn pieces(text: Seq<char>, separator: char) -> Seq<Seq<char>>
    decreases text.len(),
{
    if text.len() == 0 {
        seq![Seq::empty()]
    } else {
        let before = pieces(text.drop_last(), separator);
        if text.last() == separator {
            before.push(Seq::empty())
        } else {
            before.drop_last().push(before.last().push(text.last()))
        }
    }
}

/// There is always a piece.
pub proof fn pieces_not_empty(text: Seq<char>, separator: char)
    ensures
        pieces(text, separator).len() > 0,
    decreases text.len(),
{
    if text.len() > 0 {
        pieces_not_empty(text.drop_last(), separator);
    }
}

/// The pieces between the occurrences of one character.
pub fn split_char(chars: &Vec<char>, separator: char) -> (list: Vec<String>)
    ensures
        texts(list@) == pieces(chars@, separator),
{
    let mut list: Vec<String> = Vec::new();
    let mut current = String::new();
    let mut at: usize = 0;
    assert(chars@.take(0) == Seq::<char>::empty());
    assert(texts(list@).push(current@) == pieces(chars@.take(0), separator));
    while at < chars.len()
        invariant
            at <= chars@.len(),
            texts(list@).push(current@) == pieces(chars@.take(at as int), separator),
        decreases chars@.len() - at,
    {
        let c = chars[at];
        let ghost list_before = list@;
        let ghost before = pieces(chars@.take(at as int), separator);
        assert(chars@.take(at + 1).drop_last() == chars@.take(at as int));
        if c == separator {
            list.push(current);
            current = String::new();
            assert(texts(list@) == before);
        } else {
            current.push(c);
            assert(texts(list@) == before.drop_last());
        }
        at = at + 1;
    }
    let ghost done = texts(list@).push(current@);
    list.push(current);
    assert(texts(list@) == done);
    assert(chars@.take(at as int) == chars@);
    list
}

/// The pieces of a text between the leftmost, non-overlapping occurrences of a
/// separator. An empty separator stands before, between and after all
/// characters.
pub open spec fn split(text: Seq<char>, separator: Seq<char>) -> Seq<Seq<char>>
    decreases text.len(),
{
    if separator.len() == 0 {
        seq![Seq::empty()] + text.map_values(|c: char| seq![c]) + seq![Seq::empty()]
    } else {
        match find(text, separator) {
            Some(at) => if 0 <= at && at + separator.len() <= text.len() {
                seq![text.take(at)] + split(text.skip(at + separator.len()), separator)
            } else {
                seq![text]
            },
            None => seq![text],
        }
    }
}

/// The pieces between the occurrences of a separator.
pub fn split_text(text: &str, separator: &str) -> (list: Vec<String>)
    ensures
        texts(list@) == split(text@, separator@),
{
    let chars = to_chars(text);
    let part = to_chars(separator);
    let mut list: Vec<String> = Vec::new();
    if part.len() == 0 {
        list.push(String::new());
        let mut at: usize = 0;
        assert(texts(list@) =~= seq![Seq::<char>::empty()] + text@.take(0).map_values(
            |c: char| seq![c],
        ));
        while at < chars.len()
            invariant
                at <= chars@.len(),
                chars@ == text@,
                texts(list@) == seq![Seq::<char>::empty()] + text@.take(at as int).map_values(
                    |c: char| seq![c],
                ),
            decreases chars@.len() - at,
        {
            let ghost before = texts(list@);
            list.push(range_string(&chars, at, at + 1));
            assert(chars@.subrange(at as int, at + 1) == seq![text@[at as int]]);
            assert(texts(list@) == before.push(seq![text@[at as int]]));
            at = at + 1;
            assert(texts(list@) =~= seq![Seq::<char>::empty()] + text@.take(at as int).map_values(
                |c: char| seq![c],
            ));
        }
        let ghost before = texts(list@);
        list.push(String::new());
        assert(texts(list@) == before.push(Seq::empty()));
        assert(text@.take(at as int) == text@);
        assert(texts(list@) =~= split(text@, separator@));
        return list;
    }
    let total: usize = chars.len();
    let mut start: usize = 0;
    assert(chars@.skip(0) == chars@);
    assert(texts(list@) + split(chars@.skip(0), part@) == split(text@, separator@));
    loop
        invariant
            start <= chars@.len() == total,
            part@.len() > 0,
            chars@ == text@,
            part@ == separator@,
            texts(list@) + split(chars@.skip(start as int), part@) == split(text@, separator@),
        decreases chars@.len() - start,
    {
        let ghost before = texts(list@);
        let ghost rest = chars@.skip(start as int);
        match find_from(&chars, &part, start) {
            Some(at) => {
                list.push(range_string(&chars, start, at));
                let ghost offset = at - start;
                assert(chars@.subrange(start as int, at as int) == rest.take(offset));
                assert(texts(list@) == before.push(rest.take(offset)));
                start = at + part.len();
                assert(chars@.skip(start as int) == rest.skip(offset + part@.len()));
                assert(texts(list@) + split(chars@.skip(start as int), part@) =~= before + split(
                    rest,
                    part@,
                ));
            },
            None => {
                list.push(range_string(&chars, start, chars.len()));
                assert(chars@.subrange(start as int, chars@.len() as int) == rest);
                assert(texts(list@) =~= before + split(rest, part@));
                return list;
            },
        }
    }
}

// ---- Lines ----

/// The text with each carriage return and line feed made one line feed.
pub open spec fn unified(text: Seq<char>) -> Seq<char>
    decreases text.len(),
{
    if text.len() == 0 {
        Seq::empty()
    } else if text.len() >= 2 && text.last() == '\n' && text[text.len() - 2] == '\r' {
        unified(text.take(text.len() - 2)).push('\n')
    } else {
        unified(text.drop_last()).push(text.last())
    }
}

/// The lines of a text. A line ends at a line feed, or at a carriage return
/// and a line feed; what follows the last ending is a line too.
pub open spec fn lines(text: Seq<char>) -> Seq<Seq<char>> {
    pieces(unified(text), '\n')
}

/// Makes each carriage return and line feed one line feed.
pub fn unify(chars: &Vec<char>) -> (flat: Vec<char>)
    ensures
        flat@ == unified(chars@),
{
    let mut flat: Vec<char> = Vec::new();
    let mut at: usize = 0;
    while at < chars.len()
        invariant
            at <= chars@.len(),
            flat@ == unified(chars@.take(at as int)),
        decreases chars@.len() - at,
    {
        let ghost here = chars@.take(at + 1);
        assert(here.drop_last() == chars@.take(at as int));
        if chars[at] == '\n' && at >= 1 && chars[at - 1] == '\r' {
            assert(here.take(here.len() - 2) == chars@.take(at - 1));
            assert(chars@.take(at as int).drop_last() == chars@.take(at - 1));
            let ghost before = unified(chars@.take(at - 1));
            assert(flat@ == before.push('\r'));
            flat.pop();
            assert(flat@ == before);
            flat.push('\n');
        } else {
            flat.push(chars[at]);
        }
        at = at + 1;
    }
    assert(chars@.take(at as int) == chars@);
    flat
}

/// Splits a text into its lines.
pub fn split_lines(text: &str) -> (list: Vec<String>)
    ensures
        texts(list@) == lines(text@),
{
    let chars = to_chars(text);
    let flat = unify(&chars);
    split_char(&flat, '\n')
}

/// The lines of a text that is a list of lines: what follows the last line
/// ending is a line only where it is not empty.
pub open spec fn listed_lines(text: Seq<char>) -> Seq<Seq<char>> {
    let all = lines(text);
    if all.last().len() == 0 {
        all.drop_last()
    } else {
        all
    }
}

/// Splits a list of lines into its lines.
pub fn split_listed(text: &str) -> (list: Vec<String>)
    ensures
        texts(list@) == listed_lines(text@),
{
    let mut list = split_lines(text);
    proof {
        pieces_not_empty(unified(text@), '\n');
        assert(texts(list@).len() == list@.len());
        assert(texts(list@).last() == list@.last()@);
    }
    let count: usize = list.len();
    if list[count - 1].as_str().is_empty() {
        let ghost all = texts(list@);
        list.pop();
        assert(texts(list@) == all.drop_last());
    }
    list
}

// ---- Joining ----

/// The parts in order with the separator between them.
pub open spec fn joined(parts: Seq<Seq<char>>, separator: Seq<char>) -> Seq<char>
    decreases parts.len(),
{
    if parts.len() == 0 {
        Seq::empty()
    } else if parts.len() == 1 {
        parts[0]
    } else {
        parts[0] + separator + joined(parts.drop_first(), separator)
    }
}

/// Adding a part at the end adds the separator and the part.
pub proof fn joined_push(parts: Seq<Seq<char>>, part: Seq<char>, separator: Seq<char>)
    requires
        parts.len() > 0,
    ensures
        joined(parts.push(part), separator) == joined(parts, separator) + separator + part,
    decreases parts.len(),
{
    assert(parts.push(part).drop_first() == parts.drop_first().push(part));
    if parts.len() == 1 {
        assert(parts.drop_first().push(part) == seq![part]);
        assert(joined(seq![part], separator) == part);
    } else {
        joined_push(parts.drop_first(), part, separator);
        assert(joined(parts.push(part), separator) =~= joined(parts, separator) + separator + part);
    }
}

/// Joins the parts with the separator between them.
pub fn join(parts: &Vec<String>, separator: &str) -> (text: String)
    ensures
        text@ == joined(texts(parts@), separator@),
{
    let mut text = String::new();
    let mut at: usize = 0;
    while at < parts.len()
        invariant
            at <= parts@.len(),
            text@ == joined(texts(parts@).take(at as int), separator@),
        decreases parts@.len() - at,
    {
        let ghost done = texts(parts@).take(at as int);
        if at > 0 {
            text.append(separator);
            proof {
                joined_push(done, parts@[at as int]@, separator@);
            }
        }
        text.append(parts[at].as_str());
        assert(texts(parts@).take(at + 1) == done.push(parts@[at as int]@));
        assert(text@ == joined(texts(parts@).take(at + 1), separator@));
        at = at + 1;
    }
    assert(texts(parts@).take(at as int) == texts(parts@));
    text
}

// ---- Trimming ----

/// Whether a character has the Unicode property White_Space.
pub open spec fn is_white_space(c: char) -> bool {
    ||| '\u{9}' <= c <= '\u{d}'
    ||| c == ' '
    ||| c == '\u{85}'
    ||| c == '\u{a0}'
    ||| c == '\u{1680}'
    ||| '\u{2000}' <= c <= '\u{200a}'
    ||| c == '\u{2028}'
    ||| c == '\u{2029}'
    ||| c == '\u{202f}'
    ||| c == '\u{205f}'
    ||| c == '\u{3000}'
}

/// Whether a character is white space.
pub fn white_space(c: char) -> (white: bool)
    ensures
        white == is_white_space(c),
{
    let code: u32 = c as u32;
    (0x9 <= code && code <= 0xd) || code == 0x20 || code == 0x85 || code == 0xa0 || code == 0x1680
        || (0x2000 <= code && code <= 0x200a) || code == 0x2028 || code == 0x2029 || code == 0x202f
        || code == 0x205f || code == 0x3000
}

/// The characters that a trim takes away.
#[derive(Clone, Copy, Debug, PartialEq, Eq, Structural)]
pub enum Trim {
    /// Every white space character.
    WhiteSpace,
    /// One character.
    Char(char),
}

impl Trim {
    /// Whether the trim takes a character away.
    pub open spec fn takes(self, c: char) -> bool {
        match self {
            Trim::WhiteSpace => is_white_space(c),
            Trim::Char(taken) => c == taken,
        }
    }

    /// Decides whether the trim takes a character away.
    pub fn takes_char(self, c: char) -> (taken: bool)
        ensures
            taken == self.takes(c),
    {
        match self {
            Trim::WhiteSpace => white_space(c),
            Trim::Char(wanted) => c == wanted,
        }
    }
}

/// The text up to and with the last character that the trim leaves.
pub open spec fn trimmed_end(text: Seq<char>, trim: Trim) -> Seq<char>
    decreases text.len(),
{
    if text.len() > 0 && trim.takes(text.last()) {
        trimmed_end(text.drop_last(), trim)
    } else {
        text
    }
}

/// The text from the first character on that the trim leaves.
pub open spec fn trimmed_start(text: Seq<char>, trim: Trim) -> Seq<char>
    decreases text.len(),
{
    if text.len() > 0 && trim.takes(text[0]) {
        trimmed_start(text.drop_first(), trim)
    } else {
        text
    }
}

/// Takes characters away at the end of a text.
pub fn trim_end(text: &str, trim: Trim) -> (rest: String)
    ensures
        rest@ == trimmed_end(text@, trim),
{
    let chars = to_chars(text);
    let mut end: usize = chars.len();
    assert(chars@.take(end as int) == chars@);
    while end > 0 && trim.takes_char(chars[end - 1])
        invariant
            end <= chars@.len(),
            trimmed_end(chars@.take(end as int), trim) == trimmed_end(chars@, trim),
        decreases end,
    {
        assert(chars@.take(end as int).drop_last() == chars@.take(end - 1));
        end = end - 1;
    }
    assert(chars@.subrange(0, end as int) == chars@.take(end as int));
    range_string(&chars, 0, end)
}

/// Takes characters away at the start of a text.
pub fn trim_start(text: &str, trim: Trim) -> (rest: String)
    ensures
        rest@ == trimmed_start(text@, trim),
{
    let chars = to_chars(text);
    let mut start: usize = 0;
    assert(chars@.skip(0) == chars@);
    while start < chars.len() && trim.takes_char(chars[start])
        invariant
            start <= chars@.len(),
            trimmed_start(chars@.skip(start as int), trim) == trimmed_start(chars@, trim),
        decreases chars@.len() - start,
    {
        assert(chars@.skip(start as int).drop_first() == chars@.skip(start + 1));
        start = start + 1;
    }
    assert(chars@.subrange(start as int, chars@.len() as int) == chars@.skip(start as int));
    range_string(&chars, start, chars.len())
}

// ---- Prefixes, copies, numbers ----

/// Whether a text starts with a part.
pub fn starts_with(text: &str, part: &str) -> (starts: bool)
    ensures
        starts == part@.is_prefix_of(text@),
{
    let chars = to_chars(text);
    let wanted = to_chars(part);
    assert(chars@.skip(0) == chars@);
    part_at(&chars, &wanted, 0)
}

/// A copy of an optional string.
pub fn copy_opt(item: &Option<String>) -> (copy: Option<String>)
    ensures
        opt_text(copy) == opt_text(*item),
{
    match item {
        Some(text) => Some(text.clone()),
        None => None,
    }
}

/// A copy of a list of strings.
pub fn copy_list(list: &Vec<String>) -> (copy: Vec<String>)
    ensures
        texts(copy@) == texts(list@),
{
    let mut copy: Vec<String> = Vec::new();
    let mut at: usize = 0;
    while at < list.len()
        invariant
            at <= list@.len(),
            texts(copy@) == texts(list@).take(at as int),
        decreases list@.len() - at,
    {
        let ghost before = texts(copy@);
        copy.push(list[at].clone());
        assert(texts(copy@) == before.push(list@[at as int]@));
        at = at + 1;
        assert(texts(list@).take(at as int) == before.push(list@[at - 1]@));
    }
    assert(texts(list@).take(at as int) == texts(list@));
    copy
}

/// The decimal digits of a number.
pub open spec fn decimal(number: nat) -> Seq<char>
    decreases number,
{
    let last = seq!['0', '1', '2', '3', '4', '5', '6', '7', '8', '9'][(number % 10) as int];
    if number < 10 {
        seq![last]
    } else {
        decimal(number / 10).push(last)
    }
}

/// A number as decimal digits.
pub fn decimal_string(number: u128) -> (digits: String)
    ensures
        digits@ == decimal(number as nat),
    decreases number,
{
    let last = match number % 10 {
        0 => '0',
        1 => '1',
        2 => '2',
        3 => '3',
        4 => '4',
        5 => '5',
        6 => '6',
        7 => '7',
        8 => '8',
        _ => '9',
    };
    let mut digits = if number < 10 {
        String::new()
    } else {
        decimal_string(number / 10)
    };
    digits.push(last);
    digits
}

// ---- Which characters occur ----

/// Whether a character occurs in one of some texts.
pub open spec fn occurs_in(parts: Seq<Seq<char>>, c: char) -> bool {
    exists|i: int| 0 <= i < parts.len() && #[trigger] parts[i].contains(c)
}

} // verus!
