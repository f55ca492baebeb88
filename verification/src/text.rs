//! Characters and strings: trimming, splitting, searching and joining.
use vstd::prelude::*;
use vstd::slice::slice_subrange;

verus! {

/// `String::push`: appends one character to the end of the string.
pub assume_specification[ String::push ](s: &mut String, ch: char)
    ensures
        final(s)@ == old(s)@.push(ch),
;

/// `char::is_whitespace`: whether the character has the Unicode property `White_Space`.
pub assume_specification[ char::is_whitespace ](c: char) -> (res: bool)
    ensures
        res == is_white_space(c),
;

/// The characters with the Unicode property `White_Space`.
pub open spec fn is_white_space(c: char) -> bool {
    let u = c as u32;
    ||| 0x09 <= u <= 0x0d
    ||| u == 0x20
    ||| u == 0x85
    ||| u == 0xa0
    ||| u == 0x1680
    ||| 0x2000 <= u <= 0x200a
    ||| u == 0x2028
    ||| u == 0x2029
    ||| u == 0x202f
    ||| u == 0x205f
    ||| u == 0x3000
}

/// The digits and the letters of ASCII.
pub open spec fn is_ascii_alphanumeric(c: char) -> bool {
    ||| '0' <= c <= '9'
    ||| 'a' <= c <= 'z'
    ||| 'A' <= c <= 'Z'
}

/// Whether `c` is an ASCII digit or letter.
pub fn ascii_alphanumeric(c: char) -> (res: bool)
    ensures
        res == is_ascii_alphanumeric(c),
{
    ('0' <= c && c <= '9') || ('a' <= c && c <= 'z') || ('A' <= c && c <= 'Z')
}

/// The kinds of characters that are trimmed from the ends of a text.
#[derive(Clone, Copy)]
pub enum Trimmed {
    /// White space.
    WhiteSpace,
    /// Square brackets.
    Brackets,
    /// Everything but ASCII digits and letters.
    NotAlphanumeric,
}

impl Trimmed {
    /// Whether `c` is of this kind.
    pub open spec fn has(self, c: char) -> bool {
        match self {
            Trimmed::WhiteSpace => is_white_space(c),
            Trimmed::Brackets => c == '[' || c == ']',
            Trimmed::NotAlphanumeric => !is_ascii_alphanumeric(c),
        }
    }

    /// Whether `c` is of this kind.
    pub fn holds(self, c: char) -> (res: bool)
        ensures
            res == self.has(c),
    {
        match self {
            Trimmed::WhiteSpace => c.is_whitespace(),
            Trimmed::Brackets => c == '[' || c == ']',
            Trimmed::NotAlphanumeric => !ascii_alphanumeric(c),
        }
    }
}

/// `s` without the characters of kind `kind` that it begins with.
pub open spec fn trim_start(s: Seq<char>, kind: Trimmed) -> Seq<char>
    decreases s.len(),
{
    if s.len() > 0 && kind.has(s.first()) {
        trim_start(s.drop_first(), kind)
    } else {
        s
    }
}

/// `s` without the characters of kind `kind` that it ends with.
pub open spec fn trim_end(s: Seq<char>, kind: Trimmed) -> Seq<char>
    decreases s.len(),
{
    if s.len() > 0 && kind.has(s.last()) {
        trim_end(s.drop_last(), kind)
    } else {
        s
    }
}

/// `s` without the characters of kind `kind` at its two ends.
pub open spec fn trim_by(s: Seq<char>, kind: Trimmed) -> Seq<char> {
    trim_end(trim_start(s, kind), kind)
}

/// `s` without the white space at its two ends.
pub open spec fn trim(s: Seq<char>) -> Seq<char> {
    trim_by(s, Trimmed::WhiteSpace)
}

/// The parts of `s` between the occurrences of `sep`; always at least one.
pub open spec fn split(s: Seq<char>, sep: char) -> Seq<Seq<char>>
    decreases s.len(),
{
    if s.len() == 0 {
        seq![Seq::empty()]
    } else {
        let before = split(s.drop_last(), sep);
        if s.last() == sep {
            before.push(Seq::empty())
        } else {
            before.drop_last().push(before.last().push(s.last()))
        }
    }
}

/// The texts of `parts` one after another, with `sep` between each two.
pub open spec fn join(parts: Seq<Seq<char>>, sep: Seq<char>) -> Seq<char>
    decreases parts.len(),
{
    if parts.len() == 0 {
        Seq::empty()
    } else if parts.len() == 1 {
        parts[0]
    } else {
        join(parts.drop_last(), sep) + sep + parts.last()
    }
}

/// Whether `pat` stands in `s` from position `i` on.
pub open spec fn occurs_at(s: Seq<char>, pat: Seq<char>, i: int) -> bool {
    0 <= i && i + pat.len() <= s.len() && s.subrange(i, i + pat.len()) == pat
}

/// Whether `pat` stands somewhere in `s`.
pub open spec fn contains(s: Seq<char>, pat: Seq<char>) -> bool {
    exists|i: int| occurs_at(s, pat, i)
}

/// The trimmed lines of `s` that are not blank, in order.
pub open spec fn nonblank_lines(s: Seq<char>) -> Seq<Seq<char>> {
    split(s, '\n').map_values(|line: Seq<char>| trim(line)).filter(|line: Seq<char>| line.len() > 0)
}

/// The characters of each of the vectors.
pub open spec fn texts(parts: Seq<Vec<char>>) -> Seq<Seq<char>> {
    Seq::new(parts.len(), |i: int| parts[i]@)
}

/// The characters of each of the strings.
pub open spec fn views(strings: Seq<String>) -> Seq<Seq<char>> {
    Seq::new(strings.len(), |i: int| strings[i]@)
}

/// The characters of a string, if there is one.
pub open spec fn opt_view(s: Option<String>) -> Option<Seq<char>> {
    match s {
        Some(s) => Some(s@),
        None => None,
    }
}

/// The characters of a string, in order.
pub fn chars_of(s: &str) -> (chars: Vec<char>)
    ensures
        chars@ == s@,
{
    let mut chars: Vec<char> = Vec::new();
    for c in it: s.chars()
        invariant
            it.seq() == s@,
            chars@ == s@.take(it.index() as int),
    {
        chars.push(c);
        assert(s@.take(it.index() + 1) =~= s@.take(it.index() as int).push(c));
    }
    assert(s@.take(s@.len() as int) =~= s@);
    chars
}

/// The string made of the given characters.
pub fn text_of(chars: &[char]) -> (s: String)
    ensures
        s@ == chars@,
{
    let mut s = String::new();
    let mut i: usize = 0;
    while i < chars.len()
        invariant
            i <= chars.len(),
            s@ == chars@.take(i as int),
        decreases chars.len() - i,
    {
        s.push(chars[i]);
        assert(chars@.take(i + 1) =~= chars@.take(i as int).push(chars@[i as int]));
        i += 1;
    }
    assert(chars@.take(chars@.len() as int) =~= chars@);
    s
}

/// The characters without those of kind `kind` at the two ends.
pub fn trimmed(chars: &[char], kind: Trimmed) -> (res: &[char])
    ensures
        res@ == trim_by(chars@, kind),
{
    let mut start: usize = 0;
    assert(chars@.skip(0) =~= chars@);
    while start < chars.len() && kind.holds(chars[start])
        invariant
            start <= chars.len(),
            trim_start(chars@, kind) == trim_start(chars@.skip(start as int), kind),
        decreases chars.len() - start,
    {
        assert(chars@.skip(start as int).drop_first() =~= chars@.skip(start + 1));
        start += 1;
    }
    let mut end: usize = chars.len();
    let ghost rest = chars@.skip(start as int);
    assert(rest == trim_start(chars@, kind));
    assert(chars@.subrange(start as int, end as int) =~= rest);
    while start < end && kind.holds(chars[end - 1])
        invariant
            start <= end <= chars.len(),
            trim_end(rest, kind) == trim_end(chars@.subrange(start as int, end as int), kind),
        decreases end - start,
    {
        assert(chars@.subrange(start as int, end as int).drop_last() =~= chars@.subrange(
            start as int,
            end - 1,
        ));
        end -= 1;
    }
    slice_subrange(chars, start, end)
}

/// The parts between the occurrences of `sep`.
pub fn split_chars(chars: &[char], sep: char) -> (parts: Vec<Vec<char>>)
    ensures
        texts(parts@) == split(chars@, sep),
{
    let mut done: Vec<Vec<char>> = Vec::new();
    let mut part: Vec<char> = Vec::new();
    let mut i: usize = 0;
    assert(texts(done@).push(part@) =~= split(chars@.take(0), sep));
    while i < chars.len()
        invariant
            i <= chars.len(),
            texts(done@).push(part@) == split(chars@.take(i as int), sep),
        decreases chars.len() - i,
    {
        let c = chars[i];
        let ghost before = texts(done@).push(part@);
        assert(chars@.take(i + 1).drop_last() =~= chars@.take(i as int));
        assert(before.drop_last() =~= texts(done@));
        if c == sep {
            let ghost old_done = done@;
            let ghost old_part = part;
            done.push(part);
            assert(texts(done@) =~= texts(old_done).push(old_part@));
            part = Vec::new();
            assert(texts(done@).push(part@) =~= before.push(Seq::empty()));
        } else {
            part.push(c);
        }
        i += 1;
    }
    assert(chars@.take(chars@.len() as int) =~= chars@);
    let ghost old_done = done@;
    let ghost old_part = part;
    done.push(part);
    assert(texts(done@) =~= texts(old_done).push(old_part@));
    done
}

/// Whether `pat` stands in `chars` from position `i` on.
fn found_at(chars: &[char], pat: &[char], i: usize) -> (res: bool)
    ensures
        res == occurs_at(chars@, pat@, i as int),
{
    if i > chars.len() || chars.len() - i < pat.len() {
        return false;
    }
    let mut j: usize = 0;
    while j < pat.len()
        invariant
            j <= pat.len(),
            i + pat.len() <= chars.len(),
            forall|k: int| 0 <= k < j ==> chars@[i + k] == pat@[k],
        decreases pat.len() - j,
    {
        if chars[i + j] != pat[j] {
            assert(chars@.subrange(i as int, i + pat@.len())[j as int] != pat@[j as int]);
            return false;
        }
        j += 1;
    }
    assert(chars@.subrange(i as int, i + pat@.len()) =~= pat@);
    true
}

/// Whether `pat` stands somewhere in `chars`.
pub fn has_text(chars: &[char], pat: &[char]) -> (res: bool)
    ensures
        res == contains(chars@, pat@),
{
    let mut i: usize = 0;
    while i < chars.len()
        invariant
            i <= chars.len(),
            forall|k: int| 0 <= k < i ==> !occurs_at(chars@, pat@, k),
        decreases chars.len() - i,
    {
        if found_at(chars, pat, i) {
            return true;
        }
        i += 1;
    }
    let last = found_at(chars, pat, i);
    assert(forall|k: int| k > i ==> !occurs_at(chars@, pat@, k));
    last
}

/// Whether the two texts are the same.
pub fn same_text(a: &str, b: &str) -> (res: bool)
    ensures
        res == (a@ == b@),
{
    let left = chars_of(a);
    let right = chars_of(b);
    if left.len() != right.len() {
        return false;
    }
    let res = found_at(left.as_slice(), right.as_slice(), 0);
    assert(left@.subrange(0, right@.len() as int) =~= left@);
    res
}

/// The texts one after another, with `sep` between each two.
pub fn join_texts(parts: &[String], sep: &str) -> (res: String)
    ensures
        res@ == join(views(parts@), sep@),
{
    let mut res = String::new();
    let mut i: usize = 0;
    let ghost all = views(parts@);
    while i < parts.len()
        invariant
            i <= parts.len(),
            all == views(parts@),
            res@ == join(all.take(i as int), sep@),
        decreases parts.len() - i,
    {
        assert(all.take(i + 1).drop_last() =~= all.take(i as int));
        assert(all.take(i + 1).last() == parts@[i as int]@);
        if i > 0 {
            res.append(sep);
        } else {
            assert(all.take(1)[0] == parts@[0]@);
        }
        res.append(parts[i].as_str());
        assert(res@ =~= join(all.take(i + 1), sep@));
        i += 1;
    }
    assert(all.take(all.len() as int) =~= all);
    res
}

/// The trimmed lines of `s` that are not blank.
pub fn nonblank_lines_of(s: &str) -> (res: Vec<String>)
    ensures
        views(res@) == nonblank_lines(s@),
{
    let chars = chars_of(s);
    let lines = split_chars(chars.as_slice(), '\n');
    let mut res: Vec<String> = Vec::new();
    let mut i: usize = 0;
    let ghost all = texts(lines@).map_values(|line: Seq<char>| trim(line));
    let ghost keep = |line: Seq<char>| line.len() > 0;
    proof {
        reveal(Seq::filter);
        assert(views(res@) =~= all.take(0).filter(keep));
    }
    while i < lines.len()
        invariant
            i <= lines.len(),
            all == texts(lines@).map_values(|line: Seq<char>| trim(line)),
            keep == (|line: Seq<char>| line.len() > 0),
            views(res@) == all.take(i as int).filter(keep),
        decreases lines.len() - i,
    {
        let line = trimmed(lines[i].as_slice(), Trimmed::WhiteSpace);
        let ghost old_res = res@;
        proof {
            reveal(Seq::filter);
            assert(all.take(i + 1).drop_last() =~= all.take(i as int));
            assert(all.take(i + 1).last() == line@);
        }
        if line.len() > 0 {
            res.push(text_of(line));
            assert(views(res@) =~= views(old_res).push(line@));
        }
        i += 1;
    }
    assert(all.take(all.len() as int) =~= all);
    res
}

} // verus!
