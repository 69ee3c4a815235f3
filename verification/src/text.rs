//! Character-level text processing: the few string operations that the system
//! information lines are built with, on sequences of `char`.
use vstd::prelude::*;

verus! {

broadcast use vstd::string::group_string_axioms;

// ---------------------------------------------------------------------------
// Conversions
// ---------------------------------------------------------------------------

/// The characters of a string slice, in order.
pub fn chars_of(s: &str) -> (chars: Vec<char>)
    ensures
        chars@ == s@,
{
    let mut chars: Vec<char> = Vec::new();
    for c in it: s.chars()
        invariant
            chars@ == it.seq().take(it.index() as int),
    {
        chars.push(c);
    }
    chars
}

/// Calls `String::push`: appends the character to the end of the string.
#[verifier::external_body]
fn string_push(s: &mut String, c: char)
    ensures
        final(s)@ == old(s)@.push(c),
{
    s.push(c)
}

/// The string made of exactly these characters, in this order.
pub fn string_from_chars(chars: &Vec<char>) -> (s: String)
    ensures
        s@ == chars@,
{
    let mut s = String::new();
    let mut i: usize = 0;
    while i < chars.len()
        invariant
            i <= chars.len(),
            s@ == chars@.take(i as int),
        decreases chars.len() - i,
    {
        string_push(&mut s, chars[i]);
        i = i + 1;
        assert(s@ =~= chars@.take(i as int));
    }
    assert(chars@.take(i as int) =~= chars@);
    s
}

/// An owned copy of a string slice.
pub fn string_of(s: &str) -> (owned: String)
    ensures
        owned@ == s@,
{
    s.to_string()
}

/// Whether two character sequences are the same.
pub fn chars_equal(a: &Vec<char>, b: &Vec<char>) -> (same: bool)
    ensures
        same == (a@ == b@),
{
    if a.len() != b.len() {
        return false;
    }
    let mut i: usize = 0;
    while i < a.len()
        invariant
            i <= a.len() == b.len(),
            forall|j: int| 0 <= j < i ==> a@[j] == b@[j],
        decreases a.len() - i,
    {
        if a[i] != b[i] {
            return false;
        }
        i = i + 1;
    }
    assert(a@ =~= b@);
    true
}

/// Words joined with single spaces between them.
pub open spec fn join_words(words: Seq<Seq<char>>) -> Seq<char>
    decreases words.len(),
{
    if words.len() == 0 {
        seq![]
    } else if words.len() == 1 {
        words[0]
    } else {
        join_words(words.drop_last()) + seq![' '] + words.last()
    }
}

/// `s` begins with `prefix`.
pub open spec fn starts_with(s: Seq<char>, prefix: Seq<char>) -> bool {
    prefix.len() <= s.len() && s.take(prefix.len() as int) == prefix
}

/// `s` ends with `suffix`.
pub open spec fn ends_with(s: Seq<char>, suffix: Seq<char>) -> bool {
    suffix.len() <= s.len() && s.skip(s.len() - suffix.len()) == suffix
}

/// Joined words begin with the first word and end with the last.
pub proof fn lemma_join_words_ends(words: Seq<Seq<char>>)
    requires
        words.len() > 0,
    ensures
        starts_with(join_words(words), words[0]),
        ends_with(join_words(words), words.last()),
    decreases words.len(),
{
    if words.len() == 1 {
        assert(words[0].take(words[0].len() as int) =~= words[0]);
        assert(words[0].skip(0) =~= words[0]);
    } else {
        let init = words.drop_last();
        lemma_join_words_ends(init);
        let j = join_words(init);
        let all = join_words(words);
        assert(all == j + seq![' '] + words.last());
        assert(all.take(words[0].len() as int) =~= j.take(words[0].len() as int));
        assert(init[0] == words[0]);
        assert(all.skip(all.len() - words.last().len()) =~= words.last());
    }
}

/// The texts of a sequence of character vectors.
pub open spec fn char_vec_views(parts: Seq<Vec<char>>) -> Seq<Seq<char>> {
    parts.map_values(|p: Vec<char>| p@)
}

/// The words of `words`, joined with single spaces between them.
pub fn join_with_spaces(words: &Vec<Vec<char>>) -> (joined: Vec<char>)
    ensures
        joined@ == join_words(char_vec_views(words@)),
{
    let ghost views = char_vec_views(words@);
    let mut joined: Vec<char> = Vec::new();
    let mut i: usize = 0;
    while i < words.len()
        invariant
            i <= words.len(),
            views == char_vec_views(words@),
            joined@ == join_words(views.take(i as int)),
        decreases words.len() - i,
    {
        proof {
            assert(views.take(i + 1).drop_last() =~= views.take(i as int));
            assert(views.take(i + 1).last() == words@[i as int]@);
        }
        if i > 0 {
            joined.push(' ');
        }
        append_chars(&mut joined, &words[i]);
        proof {
            if i == 0 {
                assert(joined@ =~= views.take(1)[0]);
            } else {
                assert(joined@ =~= join_words(views.take(i as int)) + seq![' '] + words@[i as int]@);
            }
        }
        i = i + 1;
    }
    assert(views.take(i as int) =~= views);
    joined
}

/// The texts of a sequence of strings.
pub open spec fn string_views(strings: Seq<String>) -> Seq<Seq<char>> {
    strings.map_values(|s: String| s@)
}

/// Appends a new string made of `chars` to `out`.
pub fn push_string(out: &mut Vec<String>, chars: &Vec<char>)
    ensures
        string_views(final(out)@) == string_views(old(out)@).push(chars@),
{
    let s = string_from_chars(chars);
    out.push(s);
    assert(string_views(out@) =~= string_views(old(out)@).push(chars@));
}

/// Appends all of `tail` to `out`.
pub fn append_chars(out: &mut Vec<char>, tail: &Vec<char>)
    ensures
        final(out)@ == old(out)@ + tail@,
{
    let mut i: usize = 0;
    while i < tail.len()
        invariant
            i <= tail.len(),
            out@ == old(out)@ + tail@.take(i as int),
        decreases tail.len() - i,
    {
        out.push(tail[i]);
        i = i + 1;
        assert(out@ =~= old(out)@ + tail@.take(i as int));
    }
    assert(tail@.take(i as int) =~= tail@);
}

/// The characters `from .. to` of `s`.
pub fn copy_range(s: &Vec<char>, from: usize, to: usize) -> (part: Vec<char>)
    requires
        from <= to <= s.len(),
    ensures
        part@ == s@.subrange(from as int, to as int),
{
    let mut part: Vec<char> = Vec::new();
    let mut i = from;
    while i < to
        invariant
            from <= i <= to <= s.len(),
            part@ == s@.subrange(from as int, i as int),
        decreases to - i,
    {
        part.push(s[i]);
        i = i + 1;
        assert(part@ =~= s@.subrange(from as int, i as int));
    }
    part
}

// ---------------------------------------------------------------------------
// Whitespace and trimming
// ---------------------------------------------------------------------------

/// A character with the Unicode `White_Space` property, which is what
/// `char::is_whitespace` tests.
pub open spec fn is_whitespace(c: char) -> bool {
    let u = c as u32;
    ||| 0x9 <= u <= 0xd
    ||| u == 0x20
    ||| u == 0x85
    ||| u == 0xa0
    ||| u == 0x1680
    ||| 0x2000 <= u <= 0x200a
    ||| u == 0x2028
    ||| u == 0x2029
    ||| u == 0x202f
    ||| u == 0x205f
    ||| u == 0x3000
}

/// Whether `c` is a whitespace character.
pub fn char_is_whitespace(c: char) -> (ws: bool)
    ensures
        ws == is_whitespace(c),
{
    let u = c as u32;
    (0x9 <= u && u <= 0xd) || u == 0x20 || u == 0x85 || u == 0xa0 || u == 0x1680 || (0x2000 <= u
        && u <= 0x200a) || u == 0x2028 || u == 0x2029 || u == 0x202f || u == 0x205f || u == 0x3000
}

/// A text without its leading and trailing whitespace, as `str::trim` gives it.
pub open spec fn trim(s: Seq<char>) -> Seq<char>
    decreases s.len(),
{
    if s.len() > 0 && is_whitespace(s[0]) {
        trim(s.drop_first())
    } else if s.len() > 0 && is_whitespace(s.last()) {
        trim(s.drop_last())
    } else {
        s
    }
}

/// A trimmed text neither starts nor ends with whitespace.
pub proof fn lemma_trim_ends(s: Seq<char>)
    ensures
        trim(s).len() > 0 ==> !is_whitespace(trim(s)[0]) && !is_whitespace(trim(s).last()),
        trim(s).len() <= s.len(),
    decreases s.len(),
{
    if s.len() > 0 && is_whitespace(s[0]) {
        lemma_trim_ends(s.drop_first());
    } else if s.len() > 0 && is_whitespace(s.last()) {
        lemma_trim_ends(s.drop_last());
    }
}

/// Trimming twice is trimming once.
pub proof fn lemma_trim_idempotent(s: Seq<char>)
    ensures
        trim(trim(s)) == trim(s),
{
    lemma_trim_ends(s);
}

/// `s` without its leading and trailing whitespace.
pub fn trim_chars(s: &Vec<char>) -> (trimmed: Vec<char>)
    ensures
        trimmed@ == trim(s@),
{
    let mut start: usize = 0;
    let mut end: usize = s.len();
    assert(s@.subrange(0, s.len() as int) =~= s@);
    while start < end && char_is_whitespace(s[start])
        invariant
            start <= end == s.len(),
            trim(s@.subrange(start as int, end as int)) == trim(s@),
        decreases end - start,
    {
        assert(s@.subrange(start as int, end as int).drop_first() =~= s@.subrange(
            start + 1,
            end as int,
        ));
        start = start + 1;
    }
    while end > start && char_is_whitespace(s[end - 1])
        invariant
            start <= end <= s.len(),
            trim(s@.subrange(start as int, end as int)) == trim(s@),
            start < end ==> !is_whitespace(s@[start as int]),
        decreases end - start,
    {
        assert(s@.subrange(start as int, end as int).drop_last() =~= s@.subrange(
            start as int,
            end - 1,
        ));
        end = end - 1;
    }
    copy_range(s, start, end)
}

// ---------------------------------------------------------------------------
// Searching and replacing
// ---------------------------------------------------------------------------

/// `pat` occurs in `s` at position `i`.
pub open spec fn occurs_at(s: Seq<char>, pat: Seq<char>, i: int) -> bool {
    &&& 0 <= i
    &&& i + pat.len() <= s.len()
    &&& s.subrange(i, i + pat.len()) == pat
}

/// The first position at or after `i` where `pat` occurs in `s`, if any.
pub open spec fn find_from(s: Seq<char>, pat: Seq<char>, i: int) -> Option<int>
    decreases s.len() + 1 - i,
{
    if i < 0 || i + pat.len() > s.len() {
        None
    } else if occurs_at(s, pat, i) {
        Some(i)
    } else {
        find_from(s, pat, i + 1)
    }
}

/// What `find_from` finds is an occurrence, and the first one.
pub proof fn lemma_find_from(s: Seq<char>, pat: Seq<char>, i: int)
    requires
        0 <= i,
    ensures
        match find_from(s, pat, i) {
            Some(k) => i <= k && occurs_at(s, pat, k) && forall|j: int|
                i <= j < k ==> !#[trigger] occurs_at(s, pat, j),
            None => forall|j: int| i <= j ==> !#[trigger] occurs_at(s, pat, j),
        },
    decreases s.len() + 1 - i,
{
    if i + pat.len() > s.len() {
    } else if occurs_at(s, pat, i) {
    } else {
        lemma_find_from(s, pat, i + 1);
    }
}

/// Whether `pat` occurs in `s` at position `i`.
pub fn occurs_at_exec(s: &Vec<char>, pat: &Vec<char>, i: usize) -> (found: bool)
    ensures
        found == occurs_at(s@, pat@, i as int),
{
    if i > s.len() || pat.len() > s.len() - i {
        return false;
    }
    let mut k: usize = 0;
    while k < pat.len()
        invariant
            k <= pat.len(),
            i + pat.len() <= s.len(),
            forall|j: int| 0 <= j < k ==> s@[i + j] == pat@[j],
        decreases pat.len() - k,
    {
        if s[i + k] != pat[k] {
            assert(s@.subrange(i as int, i + pat.len())[k as int] != pat@[k as int]);
            return false;
        }
        k = k + 1;
    }
    assert(s@.subrange(i as int, i + pat.len()) =~= pat@);
    true
}

/// The first position at or after `start` where `pat` occurs in `s`.
pub fn find_from_exec(s: &Vec<char>, pat: &Vec<char>, start: usize) -> (found: Option<usize>)
    requires
        pat.len() > 0,
    ensures
        match found {
            Some(k) => find_from(s@, pat@, start as int) == Some(k as int),
            None => find_from(s@, pat@, start as int) is None,
        },
{
    if pat.len() > s.len() {
        return None;
    }
    let mut i = start;
    while i <= s.len() - pat.len()
        invariant
            start <= i,
            0 < pat.len() <= s.len(),
            find_from(s@, pat@, start as int) == find_from(s@, pat@, i as int),
        decreases s.len() - i,
    {
        if occurs_at_exec(s, pat, i) {
            return Some(i);
        }
        i = i + 1;
    }
    None
}

/// `s` with every occurrence of `from` replaced by `to`, the occurrences taken
/// from left to right without overlap, as `str::replace` does.
pub open spec fn replace_all(s: Seq<char>, from: Seq<char>, to: Seq<char>) -> Seq<char>
    decreases s.len(),
{
    if s.len() == 0 {
        s
    } else if from.len() > 0 && occurs_at(s, from, 0) {
        to + replace_all(s.skip(from.len() as int), from, to)
    } else {
        seq![s[0]] + replace_all(s.drop_first(), from, to)
    }
}

/// Where the pattern does not occur, replacing it changes nothing.
pub proof fn lemma_replace_absent(s: Seq<char>, from: Seq<char>, to: Seq<char>)
    requires
        forall|j: int| !#[trigger] occurs_at(s, from, j),
    ensures
        replace_all(s, from, to) == s,
    decreases s.len(),
{
    if s.len() > 0 {
        let rest = s.drop_first();
        assert forall|j: int| !#[trigger] occurs_at(rest, from, j) by {
            if occurs_at(rest, from, j) {
                assert(rest.subrange(j, j + from.len()) =~= s.subrange(j + 1, j + 1 + from.len()));
                assert(occurs_at(s, from, j + 1));
            }
        }
        assert(!occurs_at(s, from, 0));
        lemma_replace_absent(rest, from, to);
        assert(seq![s[0]] + rest =~= s);
    }
}

/// `s` with every occurrence of `from` replaced by `to`.
pub fn replace_all_exec(s: &Vec<char>, from: &Vec<char>, to: &Vec<char>) -> (replaced: Vec<char>)
    requires
        from.len() > 0,
    ensures
        replaced@ == replace_all(s@, from@, to@),
{
    let mut out: Vec<char> = Vec::new();
    let mut i: usize = 0;
    assert(s@.skip(0) =~= s@);
    while i < s.len()
        invariant
            i <= s.len(),
            from.len() > 0,
            out@ + replace_all(s@.skip(i as int), from@, to@) == replace_all(s@, from@, to@),
        decreases s.len() - i,
    {
        let ghost rest = s@.skip(i as int);
        let hit = occurs_at_exec(s, from, i);
        proof {
            if i + from.len() <= s.len() {
                assert(rest.subrange(0, from.len() as int) =~= s@.subrange(
                    i as int,
                    i + from.len(),
                ));
            }
        }
        if hit {
            proof {
                assert(rest.skip(from.len() as int) =~= s@.skip(i + from.len()));
                assert(out@ + (to@ + replace_all(rest.skip(from.len() as int), from@, to@)) =~= (
                out@ + to@) + replace_all(rest.skip(from.len() as int), from@, to@));
            }
            append_chars(&mut out, to);
            i = i + from.len();
        } else {
            proof {
                assert(rest.drop_first() =~= s@.skip(i + 1));
                assert(out@ + (seq![rest[0]] + replace_all(rest.drop_first(), from@, to@)) =~= out@.push(
                    s@[i as int],
                ) + replace_all(rest.drop_first(), from@, to@));
            }
            out.push(s[i]);
            i = i + 1;
        }
    }
    assert(s@.skip(i as int) =~= Seq::<char>::empty());
    assert(out@ + Seq::<char>::empty() =~= out@);
    out
}

// ---------------------------------------------------------------------------
// Lines
// ---------------------------------------------------------------------------

/// The position of the first line feed at or after `i`, or the length of `s` if none.
pub open spec fn newline_from(s: Seq<char>, i: int) -> int
    decreases s.len() - i,
{
    if i >= s.len() || i < 0 {
        s.len() as int
    } else if s[i] == '\n' {
        i
    } else {
        newline_from(s, i + 1)
    }
}

/// The first line feed at or after `i` lies between `i` and the end.
pub proof fn lemma_newline_from_bounds(s: Seq<char>, i: int)
    requires
        0 <= i <= s.len(),
    ensures
        i <= newline_from(s, i) <= s.len(),
        newline_from(s, i) < s.len() ==> s[newline_from(s, i)] == '\n',
    decreases s.len() - i,
{
    if i < s.len() && s[i] != '\n' {
        lemma_newline_from_bounds(s, i + 1);
    }
}

/// A line without the carriage return that ended it, if there was one.
pub open spec fn strip_carriage_return(line: Seq<char>) -> Seq<char> {
    if line.len() > 0 && line.last() == '\r' {
        line.drop_last()
    } else {
        line
    }
}

/// The lines of `s` from position `pos` on.
pub open spec fn lines_from(s: Seq<char>, pos: int) -> Seq<Seq<char>>
    decreases s.len() - pos,
{
    if pos < 0 || pos >= s.len() {
        seq![]
    } else {
        let k = newline_from(s, pos);
        proof {
            lemma_newline_from_bounds(s, pos);
        }
        if k < s.len() {
            seq![strip_carriage_return(s.subrange(pos, k))] + lines_from(s, k + 1)
        } else {
            seq![s.subrange(pos, s.len() as int)]
        }
    }
}

/// The lines of a text, as `str::lines` gives them: the text is cut at each line
/// feed, a carriage return just before a line feed is dropped with it, and a last
/// line feed does not start one more, empty, line.
pub open spec fn lines(s: Seq<char>) -> Seq<Seq<char>> {
    lines_from(s, 0)
}

/// The position of the first line feed at or after `start`, or the length of `s`.
pub fn newline_from_exec(s: &Vec<char>, start: usize) -> (k: usize)
    requires
        start <= s.len(),
    ensures
        k == newline_from(s@, start as int),
        start <= k <= s.len(),
{
    let mut i = start;
    proof {
        lemma_newline_from_bounds(s@, start as int);
    }
    while i < s.len() && s[i] != '\n'
        invariant
            start <= i <= s.len(),
            newline_from(s@, start as int) == newline_from(s@, i as int),
        decreases s.len() - i,
    {
        i = i + 1;
    }
    i
}

/// The line that starts at `pos` and the position where the next one starts:
/// `lines_from(s, pos)` is this line followed by `lines_from(s, next)`.
pub fn next_line(s: &Vec<char>, pos: usize) -> (result: (Vec<char>, usize))
    requires
        pos < s.len(),
    ensures
        pos < result.1 <= s.len(),
        lines_from(s@, pos as int) == seq![result.0@] + lines_from(s@, result.1 as int),
{
    let k = newline_from_exec(s, pos);
    if k < s.len() {
        let mut line = copy_range(s, pos, k);
        if line.len() > 0 && line[line.len() - 1] == '\r' {
            line.pop();
            assert(line@ =~= s@.subrange(pos as int, k as int).drop_last());
        }
        (line, k + 1)
    } else {
        let line = copy_range(s, pos, k);
        assert(lines_from(s@, k as int) =~= Seq::<Seq<char>>::empty());
        assert(seq![line@] + Seq::<Seq<char>>::empty() =~= seq![line@]);
        (line, k)
    }
}

// ---------------------------------------------------------------------------
// Numbers
// ---------------------------------------------------------------------------

/// The digit character for `d < 10`.
pub open spec fn digit_char(d: nat) -> char {
    (d + 48) as char
}

/// The decimal writing of `n`, without leading zeros, as `u64`'s `to_string` gives it.
pub open spec fn decimal(n: nat) -> Seq<char>
    decreases n,
{
    if n < 10 {
        seq![digit_char(n)]
    } else {
        decimal(n / 10).push(digit_char(n % 10))
    }
}

/// Appends the decimal writing of `n` to `out`.
pub fn push_decimal(n: u64, out: &mut Vec<char>)
    ensures
        final(out)@ == old(out)@ + decimal(n as nat),
    decreases n,
{
    if n >= 10 {
        push_decimal(n / 10, out);
    }
    let d = (n % 10) as u8;
    out.push((48u8 + d) as char);
    assert(out@ =~= old(out)@ + decimal(n as nat));
}

} // verus!
