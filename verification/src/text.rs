//! Text as sequences of characters: the small vocabulary of splitting, trimming,
//! number parsing and number printing the rest of the crate is specified with.

use vstd::prelude::*;
use vstd::utf8::*;

verus! {

/// `String::push` appends the given character and changes nothing else.
pub assume_specification[ String::push ](s: &mut String, c: char)
    ensures
        final(s)@ == old(s)@.push(c),
;

/// `String::pop` removes and returns the last character, or returns `None` and
/// leaves the string alone when it is empty.
pub assume_specification[ String::pop ](s: &mut String) -> (c: Option<char>)
    ensures
        old(s)@.len() == 0 ==> c is None && final(s)@ == old(s)@,
        old(s)@.len() > 0 ==> c == Some(old(s)@.last()) && final(s)@ == old(s)@.drop_last(),
;

/// `String::clear` leaves the empty string.
pub assume_specification[ String::clear ](s: &mut String)
    ensures
        final(s)@ == Seq::<char>::empty(),
;

// ── Characters ───────────────────────────────────────────────────────────────

/// The characters with Unicode's `White_Space` property.
pub open spec fn is_space(c: char) -> bool {
    ||| '\u{9}' <= c <= '\u{d}'
    ||| c == '\u{20}'
    ||| c == '\u{85}'
    ||| c == '\u{a0}'
    ||| c == '\u{1680}'
    ||| '\u{2000}' <= c <= '\u{200a}'
    ||| c == '\u{2028}'
    ||| c == '\u{2029}'
    ||| c == '\u{202f}'
    ||| c == '\u{205f}'
    ||| c == '\u{3000}'
}

/// Whether `c` is white space.
pub fn space(c: char) -> (r: bool)
    ensures
        r == is_space(c),
{
    ('\u{9}' <= c && c <= '\u{d}') || c == '\u{20}' || c == '\u{85}' || c == '\u{a0}' || c
        == '\u{1680}' || ('\u{2000}' <= c && c <= '\u{200a}') || c == '\u{2028}' || c == '\u{2029}'
        || c == '\u{202f}' || c == '\u{205f}' || c == '\u{3000}'
}

/// Whether `c` is an ASCII digit.
pub open spec fn is_digit(c: char) -> bool {
    '0' <= c <= '9'
}

/// What the digit `c` counts.
pub open spec fn digit_value(c: char) -> nat {
    (c as nat - '0' as nat) as nat
}

/// The digit that counts `d`.
pub open spec fn digit_char(d: nat) -> char {
    ('0' as nat + d) as char
}

// ── Whole texts ──────────────────────────────────────────────────────────────

/// The characters of `s`, in order.
pub fn to_chars(s: &str) -> (out: Vec<char>)
    ensures
        out@ == s@,
{
    let mut out: Vec<char> = Vec::new();
    for c in it: s.chars()
        invariant
            out@ == it.seq().take(it.index() as int),
            it.seq() == s@,
    {
        out.push(c);
    }
    out
}

/// The string that holds `s`.
pub fn to_text(s: &Vec<char>) -> (out: String)
    ensures
        out@ == s@,
{
    let mut out = String::new();
    for i in 0..s.len()
        invariant
            out@ == s@.take(i as int),
    {
        out.push(s[i]);
        assert(s@.take(i as int).push(s@[i as int]) == s@.take(i + 1));
    }
    out
}

/// What a text holds, where there is one.
pub open spec fn content(s: Option<String>) -> Option<Seq<char>> {
    match s {
        Some(s) => Some(s@),
        None => None,
    }
}

/// Whether two texts hold the same characters.
pub fn same(a: &str, b: &str) -> (r: bool)
    ensures
        r == (a@ == b@),
{
    let x = a.as_bytes();
    let y = b.as_bytes();
    proof {
        encode_utf8_decode_utf8(a@);
        encode_utf8_decode_utf8(b@);
    }
    if x.len() != y.len() {
        return false;
    }
    for i in 0..x.len()
        invariant
            x.len() == y.len(),
            x@ == encode_utf8(a@),
            y@ == encode_utf8(b@),
            forall|j: int| 0 <= j < i ==> x@[j] == y@[j],
    {
        if x[i] != y[i] {
            return false;
        }
    }
    assert(x@ == y@);
    true
}

/// The characters of `s` from `from` up to, not including, `to`.
pub fn part(s: &Vec<char>, from: usize, to: usize) -> (out: Vec<char>)
    requires
        from <= to <= s@.len(),
    ensures
        out@ == s@.subrange(from as int, to as int),
{
    let mut out: Vec<char> = Vec::new();
    for i in from..to
        invariant
            from <= to <= s@.len(),
            out@ == s@.subrange(from as int, i as int),
    {
        out.push(s[i]);
        assert(s@.subrange(from as int, i as int).push(s@[i as int]) == s@.subrange(
            from as int,
            i + 1,
        ));
    }
    out
}

/// `s` begins with `prefix`.
pub open spec fn begins(s: Seq<char>, prefix: Seq<char>) -> bool {
    prefix.len() <= s.len() && s.take(prefix.len() as int) == prefix
}

/// Whether `s` begins with `prefix`.
pub fn starts_with(s: &Vec<char>, prefix: &Vec<char>) -> (r: bool)
    ensures
        r == begins(s@, prefix@),
{
    if prefix.len() > s.len() {
        return false;
    }
    for i in 0..prefix.len()
        invariant
            prefix.len() <= s.len(),
            forall|j: int| 0 <= j < i ==> s@[j] == prefix@[j],
    {
        if s[i] != prefix[i] {
            assert(s@.take(prefix@.len() as int)[i as int] != prefix@[i as int]);
            return false;
        }
    }
    assert(s@.take(prefix@.len() as int) == prefix@);
    true
}

/// `needle` occurs in `hay` at index `at`.
pub open spec fn occurs_at(hay: Seq<char>, needle: Seq<char>, at: int) -> bool {
    0 <= at && at + needle.len() <= hay.len() && hay.subrange(at, at + needle.len()) == needle
}

/// `needle` occurs somewhere in `hay`.
pub open spec fn occurs(hay: Seq<char>, needle: Seq<char>) -> bool {
    exists|at: int| occurs_at(hay, needle, at)
}

/// Whether `needle` occurs somewhere in `hay`.
pub fn contains(hay: &str, needle: &str) -> (r: bool)
    ensures
        r == occurs(hay@, needle@),
{
    let h = to_chars(hay);
    let n = to_chars(needle);
    if n.len() > h.len() {
        return false;
    }
    let last: usize = h.len() - n.len();
    let mut at: usize = 0;
    while at <= last
        invariant
            h@ == hay@,
            n@ == needle@,
            n.len() <= h.len(),
            last == h.len() - n.len(),
            at <= last + 1,
            forall|k: int| 0 <= k < at ==> !occurs_at(hay@, needle@, k),
        decreases last + 1 - at,
    {
        let mut i: usize = 0;
        while i < n.len() && h[at + i] == n[i]
            invariant
                n.len() <= h.len(),
                last == h.len() - n.len(),
                at <= last,
                i <= n.len(),
                forall|k: int| 0 <= k < i ==> h@[at + k] == n@[k],
            decreases n.len() - i,
        {
            i += 1;
        }
        if i == n.len() {
            assert(hay@.subrange(at as int, at + needle@.len()) == needle@);
            assert(occurs_at(hay@, needle@, at as int));
            return true;
        }
        assert(!occurs_at(hay@, needle@, at as int)) by {
            assert(hay@[at + i] != needle@[i as int]);
            if occurs_at(hay@, needle@, at as int) {
                assert(hay@.subrange(at as int, at + needle@.len())[i as int] == hay@[at + i]);
            }
        }
        if at == last {
            return false;
        }
        at += 1;
    }
    false
}

/// The bytes of `s` before its first zero.
pub open spec fn until_nul(s: Seq<u8>) -> Seq<u8>
    decreases s.len(),
{
    if s.len() == 0 || s[0] == 0 {
        seq![]
    } else {
        seq![s[0]] + until_nul(s.drop_first())
    }
}

// ── Trimming and splitting ───────────────────────────────────────────────────

/// `s` without its leading white space.
pub open spec fn trim_start(s: Seq<char>) -> Seq<char>
    decreases s.len(),
{
    if s.len() > 0 && is_space(s[0]) {
        trim_start(s.drop_first())
    } else {
        s
    }
}

/// `s` without its trailing white space.
pub open spec fn trim_end(s: Seq<char>) -> Seq<char>
    decreases s.len(),
{
    if s.len() > 0 && is_space(s.last()) {
        trim_end(s.drop_last())
    } else {
        s
    }
}

/// `s` without the white space around it.
pub open spec fn trimmed(s: Seq<char>) -> Seq<char> {
    trim_end(trim_start(s))
}

/// `s` without the white space around it.
pub fn trim(s: &Vec<char>) -> (out: Vec<char>)
    ensures
        out@ == trimmed(s@),
{
    let mut from: usize = 0;
    assert(s@.skip(0) == s@);
    while from < s.len() && space(s[from])
        invariant
            from <= s.len(),
            trim_start(s@) == trim_start(s@.skip(from as int)),
        decreases s.len() - from,
    {
        assert(s@.skip(from as int).drop_first() == s@.skip(from + 1));
        from += 1;
    }
    let ghost tail = s@.skip(from as int);
    assert(trim_start(s@) == tail);
    let mut to: usize = s.len();
    assert(s@.subrange(from as int, to as int) == tail);
    while to > from && space(s[to - 1])
        invariant
            from <= to <= s.len(),
            trim_end(tail) == trim_end(s@.subrange(from as int, to as int)),
        decreases to,
    {
        assert(s@.subrange(from as int, to as int).drop_last() == s@.subrange(
            from as int,
            to - 1,
        ));
        to -= 1;
    }
    part(s, from, to)
}

/// `s` without the white space around it.
pub fn trim_text(s: &str) -> (out: String)
    ensures
        out@ == trimmed(s@),
{
    to_text(&trim(&to_chars(s)))
}

/// Index of the first white space in `s`, or its length.
pub open spec fn word_len(s: Seq<char>) -> nat
    decreases s.len(),
{
    if s.len() == 0 || is_space(s[0]) {
        0
    } else {
        1 + word_len(s.drop_first())
    }
}

/// The words of `s`: its maximal runs of characters that are not white space.
pub open spec fn words(s: Seq<char>) -> Seq<Seq<char>>
    decreases s.len(),
    via words_decreases
{
    let t = trim_start(s);
    if t.len() == 0 {
        seq![]
    } else {
        let n = word_len(t) as int;
        seq![t.take(n)] + words(t.skip(n))
    }
}

#[via_fn]
proof fn words_decreases(s: Seq<char>) {
    lemma_trim_start(s);
    let t = trim_start(s);
    if t.len() > 0 {
        lemma_word_len(t);
    }
}

/// Trimming the start leaves a suffix that does not begin with white space.
pub proof fn lemma_trim_start(s: Seq<char>)
    ensures
        trim_start(s).len() <= s.len(),
        trim_start(s) == s.skip(s.len() - trim_start(s).len()),
        trim_start(s).len() > 0 ==> !is_space(trim_start(s)[0]),
    decreases s.len(),
{
    if s.len() > 0 && is_space(s[0]) {
        lemma_trim_start(s.drop_first());
        let t = trim_start(s);
        assert(s.drop_first().skip(s.drop_first().len() - t.len()) == s.skip(s.len() - t.len()));
    } else {
        assert(s.skip(0) == s);
    }
}

/// A word ends where white space begins or where the text ends.
pub proof fn lemma_word_len(s: Seq<char>)
    ensures
        word_len(s) <= s.len(),
        s.len() > 0 && !is_space(s[0]) ==> word_len(s) > 0,
        forall|i: int| 0 <= i < word_len(s) ==> !is_space(#[trigger] s[i]),
        word_len(s) < s.len() ==> is_space(s[word_len(s) as int]),
    decreases s.len(),
{
    if s.len() > 0 && !is_space(s[0]) {
        lemma_word_len(s.drop_first());
        assert forall|i: int| 0 <= i < word_len(s) implies !is_space(#[trigger] s[i]) by {
            if i > 0 {
                assert(s[i] == s.drop_first()[i - 1]);
            }
        }
    }
}

/// The words of `s`, in order.
pub fn split_words(s: &Vec<char>) -> (out: Vec<Vec<char>>)
    ensures
        out@.map_values(|w: Vec<char>| w@) == words(s@),
{
    let mut out: Vec<Vec<char>> = Vec::new();
    let mut from: usize = 0;
    let ghost all = words(s@);
    assert(s@.skip(0) == s@);
    assert(out@.map_values(|w: Vec<char>| w@) + words(s@) == words(s@));
    loop
        invariant
            from <= s.len(),
            out@.map_values(|w: Vec<char>| w@) + words(s@.skip(from as int)) == words(s@),
        decreases s.len() - from,
    {
        let ghost before = s@.skip(from as int);
        let ghost start = from;
        while from < s.len() && space(s[from])
            invariant
                from <= s.len(),
                start <= from,
                trim_start(before) == trim_start(s@.skip(from as int)),
            decreases s.len() - from,
        {
            assert(s@.skip(from as int).drop_first() == s@.skip(from + 1));
            from += 1;
        }
        let ghost t = s@.skip(from as int);
        assert(trim_start(before) == t);
        if from == s.len() {
            assert(words(before) == Seq::<Seq<char>>::empty());
            assert(out@.map_values(|w: Vec<char>| w@) == words(s@));
            return out;
        }
        let mut to: usize = from;
        assert(t.skip(0) == t);
        while to < s.len() && !space(s[to])
            invariant
                from <= to <= s.len(),
                t == s@.skip(from as int),
                word_len(t) == (to - from) + word_len(s@.skip(to as int)),
            decreases s.len() - to,
        {
            assert(s@.skip(to as int).drop_first() == s@.skip(to + 1));
            to += 1;
        }
        assert(word_len(s@.skip(to as int)) == 0);
        let ghost n = word_len(t) as int;
        assert(n == to - from);
        proof {
            lemma_word_len(t);
        }
        let word = part(s, from, to);
        assert(word@ == t.take(n));
        assert(t.skip(n) == s@.skip(to as int));
        let ghost was = out@.map_values(|w: Vec<char>| w@);
        out.push(word);
        assert(out@.map_values(|w: Vec<char>| w@) == was.push(t.take(n)));
        assert(was.push(t.take(n)) + words(s@.skip(to as int)) == was + (seq![t.take(n)] + words(
            s@.skip(to as int),
        )));
        from = to;
    }
}

/// The `n`th word of `s`, counting from zero.
pub open spec fn nth_word(s: Seq<char>, n: nat) -> Option<Seq<char>> {
    if n < words(s).len() {
        Some(words(s)[n as int])
    } else {
        None
    }
}

/// The `n`th word of `s`, counting from zero, if there are that many.
pub fn word_at(s: &Vec<char>, n: usize) -> (out: Option<Vec<char>>)
    ensures
        out is Some == nth_word(s@, n as nat) is Some,
        out matches Some(w) ==> Some(w@) == nth_word(s@, n as nat),
{
    let mut all = split_words(s);
    let ghost seen = all@.map_values(|w: Vec<char>| w@);
    if n < all.len() {
        assert(seen[n as int] == all@[n as int]@);
        Some(all.swap_remove(n))
    } else {
        None
    }
}

/// Index of the first `c` in `s`, or its length.
pub open spec fn find(s: Seq<char>, c: char) -> nat
    decreases s.len(),
{
    if s.len() == 0 || s[0] == c {
        0
    } else {
        1 + find(s.drop_first(), c)
    }
}

/// Index of the first `c` in `s`, or its length.
pub fn index_of(s: &Vec<char>, c: char) -> (at: usize)
    ensures
        at == find(s@, c),
        at <= s@.len(),
{
    assert(s@.skip(0) == s@);
    find_from(s, 0, c)
}

/// Index of the first `c` at or after `from`, or the length.
fn find_from(s: &Vec<char>, from: usize, c: char) -> (at: usize)
    requires
        from <= s.len(),
    ensures
        from <= at <= s.len(),
        at - from == find(s@.skip(from as int), c),
        at < s.len() ==> s@[at as int] == c,
{
    let mut at: usize = from;
    while at < s.len() && s[at] != c
        invariant
            from <= at <= s.len(),
            find(s@.skip(from as int), c) == (at - from) + find(s@.skip(at as int), c),
        decreases s.len() - at,
    {
        assert(s@.skip(at as int).drop_first() == s@.skip(at + 1));
        at += 1;
    }
    at
}

/// The pieces of `s` between occurrences of `sep`; one more than there are
/// occurrences.
pub open spec fn pieces(s: Seq<char>, sep: char) -> Seq<Seq<char>>
    decreases s.len(),
{
    let n = find(s, sep) as int;
    if n >= s.len() {
        seq![s]
    } else {
        seq![s.take(n)] + pieces(s.skip(n + 1), sep)
    }
}

/// The pieces of `s` between occurrences of `sep`, in order.
pub fn split(s: &Vec<char>, sep: char) -> (out: Vec<Vec<char>>)
    ensures
        out@.map_values(|w: Vec<char>| w@) == pieces(s@, sep),
{
    let mut out: Vec<Vec<char>> = Vec::new();
    let mut from: usize = 0;
    assert(s@.skip(0) == s@);
    assert(out@.map_values(|w: Vec<char>| w@) + pieces(s@, sep) == pieces(s@, sep));
    loop
        invariant
            from <= s.len(),
            out@.map_values(|w: Vec<char>| w@) + pieces(s@.skip(from as int), sep) == pieces(
                s@,
                sep,
            ),
        decreases s.len() - from,
    {
        let ghost t = s@.skip(from as int);
        let to = find_from(s, from, sep);
        let piece = part(s, from, to);
        let ghost was = out@.map_values(|w: Vec<char>| w@);
        let ghost n = find(t, sep) as int;
        assert(piece@ == t.take(n));
        out.push(piece);
        assert(out@.map_values(|w: Vec<char>| w@) == was.push(t.take(n)));
        if to == s.len() {
            assert(t.take(n) == t);
            assert(was + seq![t] == was.push(t));
            return out;
        }
        assert(t.skip(n + 1) == s@.skip(to + 1));
        assert(was.push(t.take(n)) + pieces(s@.skip(to + 1), sep) == was + (seq![t.take(n)]
            + pieces(s@.skip(to + 1), sep)));
        from = to + 1;
    }
}

/// A line that ended in `\n`, without the `\r` that may stand before it.
pub open spec fn without_return(s: Seq<char>) -> Seq<char> {
    if s.len() > 0 && s.last() == '\r' {
        s.drop_last()
    } else {
        s
    }
}

/// The lines of `s`, without their `\n` or `\r\n` endings; the ending of the
/// last line is optional.
pub open spec fn lines(s: Seq<char>) -> Seq<Seq<char>>
    decreases s.len(),
{
    let n = find(s, '\n') as int;
    if s.len() == 0 {
        seq![]
    } else if n >= s.len() {
        seq![s]
    } else {
        seq![without_return(s.take(n))] + lines(s.skip(n + 1))
    }
}

/// The lines of `s`, in order.
pub fn split_lines(s: &Vec<char>) -> (out: Vec<Vec<char>>)
    ensures
        out@.map_values(|w: Vec<char>| w@) == lines(s@),
{
    let mut out: Vec<Vec<char>> = Vec::new();
    let mut from: usize = 0;
    assert(s@.skip(0) == s@);
    assert(out@.map_values(|w: Vec<char>| w@) + lines(s@) == lines(s@));
    while from < s.len()
        invariant
            from <= s.len(),
            out@.map_values(|w: Vec<char>| w@) + lines(s@.skip(from as int)) == lines(s@),
        decreases s.len() - from,
    {
        let ghost t = s@.skip(from as int);
        let to = find_from(s, from, '\n');
        let ghost was = out@.map_values(|w: Vec<char>| w@);
        let ghost n = find(t, '\n') as int;
        if to == s.len() {
            let line = part(s, from, to);
            assert(line@ == t);
            out.push(line);
            assert(out@.map_values(|w: Vec<char>| w@) == was.push(t));
            assert(was + seq![t] == was.push(t));
            return out;
        }
        let end: usize = if to > from && s[to - 1] == '\r' { to - 1 } else { to };
        let line = part(s, from, end);
        assert(t.take(n) == s@.subrange(from as int, to as int));
        assert(line@ == without_return(t.take(n)));
        out.push(line);
        assert(out@.map_values(|w: Vec<char>| w@) == was.push(without_return(t.take(n))));
        assert(t.skip(n + 1) == s@.skip(to + 1));
        assert(was.push(without_return(t.take(n))) + lines(s@.skip(to + 1)) == was + (seq![
            without_return(t.take(n)),
        ] + lines(s@.skip(to + 1))));
        from = to + 1;
    }
    assert(s@.skip(from as int) == Seq::<char>::empty());
    assert(out@.map_values(|w: Vec<char>| w@) + lines(s@.skip(from as int)) == out@.map_values(
        |w: Vec<char>| w@,
    ));
    out
}

/// The first of `all` that begins with `prefix`.
pub open spec fn first_with(all: Seq<Seq<char>>, prefix: Seq<char>) -> Option<Seq<char>>
    decreases all.len(),
{
    if all.len() == 0 {
        None
    } else if begins(all[0], prefix) {
        Some(all[0])
    } else {
        first_with(all.drop_first(), prefix)
    }
}

/// The first line of `s` that begins with `prefix`.
pub fn line_with(s: &str, prefix: &str) -> (out: Option<Vec<char>>)
    ensures
        out is Some == first_with(lines(s@), prefix@) is Some,
        out matches Some(line) ==> Some(line@) == first_with(lines(s@), prefix@),
{
    let chars = to_chars(s);
    let mut all = split_lines(&chars);
    let wanted = to_chars(prefix);
    let ghost seen = all@.map_values(|w: Vec<char>| w@);
    assert(seen.skip(0) == seen);
    let mut i: usize = 0;
    while i < all.len()
        invariant
            i <= all.len(),
            wanted@ == prefix@,
            seen == all@.map_values(|w: Vec<char>| w@),
            seen == lines(s@),
            first_with(seen, prefix@) == first_with(seen.skip(i as int), prefix@),
        decreases all.len() - i,
    {
        assert(seen.skip(i as int)[0] == all@[i as int]@);
        if starts_with(&all[i], &wanted) {
            return Some(all.swap_remove(i));
        }
        assert(seen.skip(i as int).drop_first() == seen.skip(i + 1));
        i += 1;
    }
    None
}

// ── Numbers ──────────────────────────────────────────────────────────────────

/// Every character of `s` is an ASCII digit.
pub open spec fn all_digits(s: Seq<char>) -> bool {
    forall|i: int| 0 <= i < s.len() ==> is_digit(#[trigger] s[i])
}

/// The number the digits `s` write in base ten.
pub open spec fn digits_value(s: Seq<char>) -> nat
    decreases s.len(),
{
    if s.len() == 0 {
        0
    } else {
        digits_value(s.drop_last()) * 10 + digit_value(s.last())
    }
}

/// `s` without the `+` it may begin with.
pub open spec fn unsigned_digits(s: Seq<char>) -> Seq<char> {
    if s.len() > 0 && s[0] == '+' {
        s.drop_first()
    } else {
        s
    }
}

/// The number `s` writes: an optional `+`, then digits and nothing else. `None`
/// when it writes none, or one above `max`.
pub open spec fn parsed(s: Seq<char>, max: nat) -> Option<nat> {
    let digits = unsigned_digits(s);
    if digits.len() > 0 && all_digits(digits) && digits_value(digits) <= max {
        Some(digits_value(digits))
    } else {
        None
    }
}

/// Writing more digits never writes a smaller number.
proof fn lemma_digits_grow(s: Seq<char>, n: int)
    requires
        0 <= n <= s.len(),
    ensures
        digits_value(s.take(n)) <= digits_value(s),
    decreases s.len() - n,
{
    if n < s.len() {
        assert(s.drop_last().take(n) == s.take(n));
        lemma_digits_grow(s.drop_last(), n);
    } else {
        assert(s.take(n) == s);
    }
}

/// The number `s` writes, if it writes one that is at most `max`.
pub fn parse_number(s: &Vec<char>, max: u64) -> (out: Option<u64>)
    ensures
        out is Some == parsed(s@, max as nat) is Some,
        out matches Some(n) ==> Some(n as nat) == parsed(s@, max as nat),
{
    let from: usize = if s.len() > 0 && s[0] == '+' { 1 } else { 0 };
    let ghost digits = unsigned_digits(s@);
    assert(digits == s@.skip(from as int));
    if from == s.len() {
        return None;
    }
    let mut value: u64 = 0;
    let mut i: usize = from;
    assert(digits.take(0) == Seq::<char>::empty());
    while i < s.len()
        invariant
            from <= i <= s.len(),
            digits == s@.skip(from as int),
            digits == unsigned_digits(s@),
            forall|j: int| 0 <= j < i - from ==> is_digit(#[trigger] digits[j]),
            value == digits_value(digits.take(i - from)),
            value <= max,
        decreases s.len() - i,
    {
        let c = s[i];
        let ghost k = i - from;
        assert(digits[k] == c);
        if c < '0' || c > '9' {
            return None;
        }
        let d: u64 = c as u64 - '0' as u64;
        assert(digits.take(k + 1).drop_last() == digits.take(k));
        assert(digits_value(digits.take(k + 1)) == value * 10 + d);
        if value > (u64::MAX - d) / 10 || value * 10 + d > max {
            proof {
                assert(value * 10 + d > max);
                lemma_digits_grow(digits, k + 1);
            }
            return None;
        }
        value = value * 10 + d;
        i += 1;
    }
    assert(digits.take(i - from) == digits);
    Some(value)
}

/// What keeps a text from writing a number.
#[derive(Clone, Copy, Debug, PartialEq, Eq, Structural)]
pub enum NumberFault {
    /// It is empty.
    Empty,
    /// It holds something else than digits, or nothing but a sign.
    InvalidDigit,
    /// The number is too large.
    TooLarge,
}

impl NumberFault {
    /// The message for the operator.
    pub open spec fn text(self) -> Seq<char> {
        match self {
            NumberFault::Empty => "cannot parse integer from empty string"@,
            NumberFault::InvalidDigit => "invalid digit found in string"@,
            NumberFault::TooLarge => "number too large to fit in target type"@,
        }
    }

    /// The message for the operator.
    pub fn message(self) -> (out: &'static str)
        ensures
            out@ == self.text(),
    {
        match self {
            NumberFault::Empty => "cannot parse integer from empty string",
            NumberFault::InvalidDigit => "invalid digit found in string",
            NumberFault::TooLarge => "number too large to fit in target type",
        }
    }
}

/// The first `n` of `digits` write a number above `max`.
pub open spec fn exceeds(digits: Seq<char>, n: int, max: nat) -> bool {
    &&& 0 <= n <= digits.len()
    &&& all_digits(digits.take(n))
    &&& digits_value(digits.take(n)) > max
}

/// What keeps `s` from writing a number up to `max`, if anything does. It is read from
/// the left: a number that is too large already is that, whatever follows its digits.
pub open spec fn fault(s: Seq<char>, max: nat) -> Option<NumberFault> {
    if parsed(s, max) is Some {
        None
    } else if s.len() == 0 {
        Some(NumberFault::Empty)
    } else if exists|n: int| exceeds(unsigned_digits(s), n, max) {
        Some(NumberFault::TooLarge)
    } else {
        Some(NumberFault::InvalidDigit)
    }
}

/// What keeps `s` from writing a number up to `max`, if anything does.
pub fn number_fault(s: &Vec<char>, max: u64) -> (out: Option<NumberFault>)
    ensures
        out == fault(s@, max as nat),
{
    if parse_number(s, max).is_some() {
        return None;
    }
    if s.len() == 0 {
        return Some(NumberFault::Empty);
    }
    let from: usize = if s[0] == '+' { 1 } else { 0 };
    let ghost digits = unsigned_digits(s@);
    assert(digits == s@.skip(from as int));
    let mut value: u64 = 0;
    let mut i: usize = from;
    assert(digits.take(0) == Seq::<char>::empty());
    while i < s.len()
        invariant
            from <= i <= s.len(),
            s.len() > 0,
            parsed(s@, max as nat) is None,
            digits == s@.skip(from as int),
            digits == unsigned_digits(s@),
            forall|j: int| 0 <= j < i - from ==> is_digit(#[trigger] digits[j]),
            value == digits_value(digits.take(i - from)),
            value <= max,
        decreases s.len() - i,
    {
        let c = s[i];
        let ghost k = i - from;
        assert(digits[k] == c);
        if c < '0' || c > '9' {
            proof {
                assert forall|n: int| !exceeds(digits, n, max as nat) by {
                    if exceeds(digits, n, max as nat) {
                        if n > k {
                            assert(digits.take(n)[k] == c);
                        } else {
                            assert(digits.take(k).take(n) == digits.take(n));
                            lemma_digits_grow(digits.take(k), n);
                        }
                    }
                }
            }
            return Some(NumberFault::InvalidDigit);
        }
        let d: u64 = c as u64 - '0' as u64;
        assert(digits.take(k + 1).drop_last() == digits.take(k));
        assert(digits_value(digits.take(k + 1)) == value * 10 + d);
        if value > (u64::MAX - d) / 10 || value * 10 + d > max {
            assert(exceeds(digits, k + 1, max as nat));
            return Some(NumberFault::TooLarge);
        }
        value = value * 10 + d;
        i += 1;
    }
    proof {
        assert(digits.take(i - from) == digits);
        assert(digits.len() == 0);
        assert forall|n: int| !exceeds(digits, n, max as nat) by {
            if exceeds(digits, n, max as nat) {
                assert(digits.take(n) == digits);
            }
        }
    }
    Some(NumberFault::InvalidDigit)
}

/// `n` in base ten.
pub open spec fn decimal(n: nat) -> Seq<char>
    decreases n,
{
    if n < 10 {
        seq![digit_char(n)]
    } else {
        decimal(n / 10).push(digit_char(n % 10))
    }
}

/// `n` in base ten.
pub fn to_decimal(n: u128) -> (out: String)
    ensures
        out@ == decimal(n as nat),
    decreases n,
{
    let last = ('0' as u8 + (n % 10) as u8) as char;
    assert(last == digit_char((n % 10) as nat));
    let mut out = if n < 10 { String::new() } else { to_decimal(n / 10) };
    out.push(last);
    out
}

// ── Laws ─────────────────────────────────────────────────────────────────────

/// What is printed in base ten reads back as the number printed.
pub proof fn decimal_reads_back(n: nat, max: nat)
    requires
        n <= max,
    ensures
        parsed(decimal(n), max) == Some(n),
{
    lemma_decimal(n);
    assert(unsigned_digits(decimal(n)) == decimal(n)) by {
        assert(is_digit(decimal(n)[0]));
    }
}

/// `decimal` writes digits only, at least one, and `digits_value` reads them.
proof fn lemma_decimal(n: nat)
    ensures
        decimal(n).len() > 0,
        all_digits(decimal(n)),
        digits_value(decimal(n)) == n,
    decreases n,
{
    if n < 10 {
        assert(decimal(n).drop_last() == Seq::<char>::empty());
        assert(digits_value(Seq::<char>::empty()) == 0);
    } else {
        lemma_decimal(n / 10);
        assert(decimal(n).drop_last() == decimal(n / 10));
        assert forall|i: int| 0 <= i < decimal(n).len() implies is_digit(
            #[trigger] decimal(n)[i],
        ) by {
            if i < decimal(n).len() - 1 {
                assert(decimal(n)[i] == decimal(n / 10)[i]);
            }
        }
    }
}

/// A zero ends a name, whatever follows it; so does the end of the bytes.
pub proof fn a_zero_ends_a_name(name: Seq<u8>, rest: Seq<u8>)
    requires
        forall|i: int| 0 <= i < name.len() ==> #[trigger] name[i] != 0,
        rest.len() > 0 ==> rest[0] == 0,
    ensures
        until_nul(name + rest) == name,
    decreases name.len(),
{
    let all = name + rest;
    if name.len() > 0 {
        let fewer = name.drop_first();
        assert(all.drop_first() =~= fewer + rest);
        assert(all[0] == name[0]);
        assert forall|i: int| 0 <= i < fewer.len() implies #[trigger] fewer[i] != 0 by {
            assert(fewer[i] == name[i + 1]);
        }
        a_zero_ends_a_name(fewer, rest);
        assert(seq![name[0]] + fewer =~= name);
    } else {
        assert(all =~= rest);
        assert(until_nul(all) =~= name);
    }
}

/// What is put into a text is found in it.
pub proof fn what_is_put_in_is_found(front: Seq<char>, needle: Seq<char>, back: Seq<char>)
    ensures
        occurs(front + needle + back, needle),
{
    let hay = front + needle + back;
    let at = front.len() as int;
    assert(hay.subrange(at, at + needle.len()) =~= needle);
    assert(occurs_at(hay, needle, at));
}

/// What is found in a text is there, between something and something.
pub proof fn what_is_found_is_there(hay: Seq<char>, needle: Seq<char>)
    requires
        occurs(hay, needle),
    ensures
        exists|front: Seq<char>, back: Seq<char>| hay == #[trigger] (front + needle + back),
{
    let at = choose|at: int| occurs_at(hay, needle, at);
    let (front, back) = (hay.take(at), hay.skip(at + needle.len()));
    let middle = hay.subrange(at, at + needle.len());
    assert(hay =~= front + middle + back);
    assert(hay == front + needle + back);
}

/// Of the ASCII characters, the blank, the tab and the line and page breaks are white
/// space, and nothing else is; beyond them the next line, the blanks of all widths, and
/// the line and paragraph separators are.
pub proof fn blanks_and_breaks_are_space(c: char)
    ensures
        c as nat <= 0x7f ==> (is_space(c) <==> c == ' ' || c == '\t' || c == '\n' || c == '\r' || c as nat
            == 0x0b || c as nat == 0x0c),
        c as nat > 0x7f ==> (is_space(c) <==> {
            let n = c as nat;
            ||| n == 133
            ||| n == 160
            ||| n == 5_760
            ||| 8_192 <= n <= 8_202
            ||| n == 8_232
            ||| n == 8_233
            ||| n == 8_239
            ||| n == 8_287
            ||| n == 12_288
        }),
{
}

/// There are as many words as there are, and none beyond the last.
pub proof fn there_is_no_word_beyond_the_last(s: Seq<char>, n: nat)
    ensures
        nth_word(s, n) is Some <==> n < words(s).len(),
        nth_word(s, n) matches Some(word) ==> words(s)[n as int] == word,
{
}

/// `c` is not in `s`.
pub open spec fn lacks(s: Seq<char>, c: char) -> bool {
    forall|i: int| 0 <= i < s.len() ==> #[trigger] s[i] != c
}

/// What is looked for is found where it first stands.
pub proof fn the_first_is_found(front: Seq<char>, c: char, back: Seq<char>)
    requires
        lacks(front, c),
    ensures
        find(front + seq![c] + back, c) == front.len(),
        find(front, c) == front.len(),
    decreases front.len(),
{
    let all = front + seq![c] + back;
    if front.len() > 0 {
        let fewer = front.drop_first();
        assert(all.drop_first() =~= fewer + seq![c] + back);
        assert(all[0] == front[0]);
        assert forall|i: int| 0 <= i < fewer.len() implies #[trigger] fewer[i] != c by {
            assert(fewer[i] == front[i + 1]);
        }
        the_first_is_found(fewer, c, back);
    } else {
        assert(all[0] == c);
    }
}

/// Splitting undoes joining: the pieces of a joined text are those it was joined from.
pub proof fn a_piece_comes_off(piece: Seq<char>, sep: char, rest: Seq<char>)
    requires
        lacks(piece, sep),
    ensures
        pieces(piece + seq![sep] + rest, sep) == seq![piece] + pieces(rest, sep),
        pieces(piece, sep) == seq![piece],
{
    let all = piece + seq![sep] + rest;
    let n = piece.len() as int;
    the_first_is_found(piece, sep, rest);
    assert(all.take(n) =~= piece);
    assert(all.skip(n + 1) =~= rest);
}

/// The lines of a text are those it was put together from, whether they end in `\n` or
/// in `\r\n`; the last may end in neither.
pub proof fn a_line_comes_off(line: Seq<char>, rest: Seq<char>)
    requires
        lacks(line, '\n'),
    ensures
        lines(line + seq!['\r', '\n'] + rest) == seq![line] + lines(rest),
        line.len() == 0 || line.last() != '\r' ==> lines(line + seq!['\n'] + rest) == seq![line]
            + lines(rest),
        line.len() > 0 ==> lines(line) == seq![line],
        lines(Seq::<char>::empty()) == Seq::<Seq<char>>::empty(),
{
    let (n, with) = (line.len() as int, line + seq!['\r']);
    let (short, long) = (line + seq!['\n'] + rest, line + seq!['\r', '\n'] + rest);
    the_first_is_found(line, '\n', rest);
    assert(short.take(n) =~= line);
    assert(short.skip(n + 1) =~= rest);
    assert forall|i: int| 0 <= i < with.len() implies #[trigger] with[i] != '\n' by {
        if i < n {
            assert(with[i] == line[i]);
        }
    }
    the_first_is_found(with, '\n', rest);
    assert(long =~= with + seq!['\n'] + rest);
    assert(long.take(n + 1) =~= with);
    assert(long.skip(n + 2) =~= rest);
    assert(with.drop_last() =~= line);
}

/// No character of `s` is white space.
pub open spec fn is_word(s: Seq<char>) -> bool {
    forall|i: int| 0 <= i < s.len() ==> !is_space(#[trigger] s[i])
}

/// Every character of `s` is white space.
pub open spec fn is_gap(s: Seq<char>) -> bool {
    forall|i: int| 0 <= i < s.len() ==> is_space(#[trigger] s[i])
}

/// The words of a text are those it was put together from, however much white space
/// stands before and between them.
pub proof fn a_word_comes_off(gap: Seq<char>, word: Seq<char>, rest: Seq<char>)
    requires
        is_gap(gap),
        is_word(word),
        word.len() > 0,
        rest.len() > 0 ==> is_space(rest[0]),
    ensures
        words(gap + word + rest) == seq![word] + words(rest),
        words(gap) == Seq::<Seq<char>>::empty(),
{
    let tail = word + rest;
    assert(gap + word + rest =~= gap + tail);
    assert(tail[0] == word[0]);
    lemma_gap_goes(gap, tail);
    lemma_word_ends(word, rest);
    assert(tail.take(word.len() as int) =~= word);
    assert(tail.skip(word.len() as int) =~= rest);
    lemma_gap_goes(gap, Seq::<char>::empty());
    assert(gap + Seq::<char>::empty() =~= gap);
}

proof fn lemma_gap_goes(gap: Seq<char>, tail: Seq<char>)
    requires
        is_gap(gap),
        tail.len() > 0 ==> !is_space(tail[0]),
    ensures
        trim_start(gap + tail) == tail,
    decreases gap.len(),
{
    let all = gap + tail;
    if gap.len() > 0 {
        let fewer = gap.drop_first();
        assert(all.drop_first() =~= fewer + tail);
        assert(all[0] == gap[0]);
        assert forall|i: int| 0 <= i < fewer.len() implies is_space(#[trigger] fewer[i]) by {
            assert(fewer[i] == gap[i + 1]);
        }
        lemma_gap_goes(fewer, tail);
    } else {
        assert(all =~= tail);
    }
}

proof fn lemma_word_ends(word: Seq<char>, rest: Seq<char>)
    requires
        is_word(word),
        rest.len() > 0 ==> is_space(rest[0]),
    ensures
        word_len(word + rest) == word.len(),
    decreases word.len(),
{
    let all = word + rest;
    if word.len() > 0 {
        let fewer = word.drop_first();
        assert(all.drop_first() =~= fewer + rest);
        assert(all[0] == word[0]);
        assert forall|i: int| 0 <= i < fewer.len() implies !is_space(#[trigger] fewer[i]) by {
            assert(fewer[i] == word[i + 1]);
        }
        lemma_word_ends(fewer, rest);
    } else {
        assert(all =~= rest);
    }
}

/// Trimming takes the white space around a text, all of it and nothing else.
pub proof fn only_the_gaps_are_trimmed(front: Seq<char>, core: Seq<char>, back: Seq<char>)
    requires
        is_gap(front),
        is_gap(back),
        core.len() > 0 ==> !is_space(core[0]) && !is_space(core.last()),
    ensures
        core.len() > 0 ==> trimmed(front + core + back) == core,
        trimmed(front) == Seq::<char>::empty(),
{
    lemma_gap_goes(front, Seq::<char>::empty());
    assert(front + Seq::<char>::empty() =~= front);
    if core.len() > 0 {
        let tail = core + back;
        assert(front + core + back =~= front + tail);
        assert(tail[0] == core[0]);
        lemma_gap_goes(front, tail);
        lemma_end_goes(core, back);
    }
}

proof fn lemma_end_goes(core: Seq<char>, gap: Seq<char>)
    requires
        is_gap(gap),
        core.len() > 0 ==> !is_space(core.last()),
    ensures
        trim_end(core + gap) == core,
    decreases gap.len(),
{
    let all = core + gap;
    if gap.len() > 0 {
        let fewer = gap.drop_last();
        assert(all.drop_last() =~= core + fewer);
        assert(all.last() == gap.last());
        assert(is_space(gap[gap.len() - 1]));
        assert forall|i: int| 0 <= i < fewer.len() implies is_space(#[trigger] fewer[i]) by {
            assert(fewer[i] == gap[i]);
        }
        lemma_end_goes(core, fewer);
    } else {
        assert(all =~= core);
    }
}

/// A text begins with what it was put together from first.
pub proof fn a_text_begins_with_its_front(front: Seq<char>, back: Seq<char>, s: Seq<char>)
    ensures
        begins(front + back, front),
        begins(s, front) ==> s == front + s.skip(front.len() as int),
{
    assert((front + back).take(front.len() as int) =~= front);
    if begins(s, front) {
        assert(s =~= s.take(front.len() as int) + s.skip(front.len() as int));
    }
}

/// The line found is the first that begins as asked, and none is found only where none
/// does.
pub proof fn the_first_that_begins_so(
    before: Seq<Seq<char>>,
    line: Seq<char>,
    after: Seq<Seq<char>>,
    prefix: Seq<char>,
)
    requires
        forall|i: int| 0 <= i < before.len() ==> !begins(#[trigger] before[i], prefix),
    ensures
        first_with(before, prefix) is None,
        first_with(before + seq![prefix + line] + after, prefix) == Some(prefix + line),
    decreases before.len(),
{
    let all = before + seq![prefix + line] + after;
    if before.len() > 0 {
        let fewer = before.drop_first();
        assert(all.drop_first() =~= fewer + seq![prefix + line] + after);
        assert(all[0] == before[0]);
        assert forall|i: int| 0 <= i < fewer.len() implies !begins(#[trigger] fewer[i], prefix) by {
            assert(fewer[i] == before[i + 1]);
        }
        the_first_that_begins_so(fewer, line, after, prefix);
    } else {
        assert(all[0] == prefix + line);
        a_text_begins_with_its_front(prefix, line, all[0]);
    }
}

/// Numbers are read in base ten: a digit counts itself, one more digit multiplies by
/// ten and adds, as far as the largest number allowed. A plus sign in front changes
/// nothing.
pub proof fn digits_count_in_tens(s: Seq<char>, d: nat, max: nat)
    requires
        d < 10,
    ensures
        parsed(seq![('0' as nat + d) as char], max) == if d <= max {
            Some(d)
        } else {
            None
        },
        parsed(s, max) matches Some(n) ==> parsed(s.push(('0' as nat + d) as char), max) == if n * 10
            + d <= max {
            Some(n * 10 + d)
        } else {
            None
        },
        s.len() > 0 && s[0] != '+' ==> parsed(seq!['+'] + s, max) == parsed(s, max),
{
    let c = ('0' as nat + d) as char;
    let single = seq![c];
    assert(single.drop_last() =~= Seq::<char>::empty());
    reveal_with_fuel(digits_value, 2);
    assert(unsigned_digits(single) == single);
    if parsed(s, max) is Some {
        let (digits, more) = (unsigned_digits(s), unsigned_digits(s.push(c)));
        assert(more =~= digits.push(c));
        assert(more.drop_last() =~= digits);
        assert forall|i: int| 0 <= i < more.len() implies is_digit(#[trigger] more[i]) by {
            if i < digits.len() {
                assert(more[i] == digits[i]);
            }
        }
    }
    if s.len() > 0 && s[0] != '+' {
        assert((seq!['+'] + s).drop_first() =~= s);
    }
}

/// What holds anything but digits, behind a plus sign at most, is no number, nor is
/// nothing, nor a sign alone.
pub proof fn only_digits_are_a_number(s: Seq<char>, i: int, max: nat)
    requires
        0 <= i < s.len(),
        !('0' <= s[i] && s[i] <= '9'),
        i > 0 || s[0] != '+',
    ensures
        parsed(s, max) is None,
        parsed(Seq::<char>::empty(), max) is None,
        parsed(seq!['+'], max) is None,
{
    let digits = unsigned_digits(s);
    if s[0] == '+' {
        assert(digits[i - 1] == s[i]);
    } else {
        assert(digits[i] == s[i]);
    }
    assert(seq!['+'].drop_first() =~= Seq::<char>::empty());
}

/// A printed number has no zero in front, but for zero itself.
pub proof fn decimal_is_shortest(n: nat)
    ensures
        decimal(n).len() > 0,
        n > 0 ==> decimal(n)[0] != '0',
        decimal(0) == seq!['0'],
        forall|i: int| 0 <= i < decimal(n).len() ==> '0' <= #[trigger] decimal(n)[i] <= '9',
    decreases n,
{
    lemma_decimal(n);
    assert forall|i: int| 0 <= i < decimal(n).len() implies '0' <= #[trigger] decimal(n)[i]
        <= '9' by {
        assert(is_digit(decimal(n)[i]));
    }
    if n >= 10 {
        decimal_is_shortest(n / 10);
        assert(decimal(n)[0] == decimal(n / 10)[0]);
    }
}

/// Where one text ends its last line, the lines of what follows come after its own.
pub proof fn lines_come_in_order(front: Seq<char>, back: Seq<char>)
    requires
        front.len() > 0 ==> front.last() == '\n',
    ensures
        lines(front + back) == lines(front) + lines(back),
    decreases front.len(),
{
    let all = front + back;
    if front.len() == 0 {
        assert(all =~= back);
        assert(lines(front) + lines(back) =~= lines(back));
    } else {
        lemma_found(front, '\n');
        let n = find(front, '\n') as int;
        let (line, rest) = (front.take(n), front.skip(n + 1));
        assert(front =~= line + seq!['\n'] + rest);
        assert(all =~= line + seq!['\n'] + (rest + back));
        the_first_is_found(line, '\n', rest);
        the_first_is_found(line, '\n', rest + back);
        assert(all.take(n) =~= line);
        assert(all.skip(n + 1) =~= rest + back);
        if rest.len() > 0 {
            assert(rest.last() == front.last());
        }
        lines_come_in_order(rest, back);
        assert(lines(all) == seq![without_return(line)] + (lines(rest) + lines(back)));
        assert(lines(front) == seq![without_return(line)] + lines(rest));
        assert(lines(all) =~= lines(front) + lines(back));
    }
}

proof fn lemma_found(s: Seq<char>, c: char)
    requires
        s.len() > 0,
        s.last() == c,
    ensures
        find(s, c) < s.len(),
        s[find(s, c) as int] == c,
        lacks(s.take(find(s, c) as int), c),
    decreases s.len(),
{
    if s[0] != c {
        let fewer = s.drop_first();
        assert(fewer.last() == s.last());
        lemma_found(fewer, c);
        let n = find(s, c) as int;
        assert forall|i: int| 0 <= i < n implies #[trigger] s.take(n)[i] != c by {
            if i > 0 {
                assert(s.take(n)[i] == fewer.take(n - 1)[i - 1]);
            }
        }
    }
}

/// The row `key` of a file of rows, `key word ...`, is found and read: the key is its
/// first word and what follows its second, wherever in the file the row stands.
pub proof fn a_row_is_found(
    front: Seq<char>,
    key: Seq<char>,
    gap: Seq<char>,
    word: Seq<char>,
    tail: Seq<char>,
    rest: Seq<char>,
)
    requires
        front.len() > 0 ==> front.last() == '\n',
        forall|i: int| 0 <= i < lines(front).len() ==> !begins(#[trigger] lines(front)[i], key),
        is_word(key),
        key.len() > 0,
        is_gap(gap),
        gap.len() > 0,
        is_word(word),
        word.len() > 0,
        tail.len() > 0 ==> is_space(tail[0]) && tail.last() != '\r',
        lacks(gap, '\n'),
        lacks(tail, '\n'),
    ensures
        ({
            let row = key + gap + word + tail;
            let file = front + (row + seq!['\n'] + rest);
            &&& first_with(lines(file), key) == Some(row)
            &&& nth_word(row, 0) == Some(key)
            &&& nth_word(row, 1) == Some(word)
        }),
{
    let row = key + gap + word + tail;
    let none = Seq::<char>::empty();
    assert forall|i: int| 0 <= i < row.len() implies #[trigger] row[i] != '\n' by {
        let (a, b) = (key.len() as int, (key + gap).len() as int);
        let c = (key + gap + word).len() as int;
        if i < a {
            assert(row[i] == key[i]);
        } else if i < b {
            assert(row[i] == gap[i - a]);
        } else if i < c {
            assert(row[i] == word[i - b]);
        } else {
            assert(row[i] == tail[i - c]);
        }
    }
    if tail.len() > 0 {
        assert(row.last() == tail.last());
    } else {
        assert(row.last() == word[word.len() - 1]);
    }
    lines_come_in_order(front, row + seq!['\n'] + rest);
    a_line_comes_off(row, rest);
    let line = gap + word + tail;
    assert(row =~= key + line);
    the_first_that_begins_so(lines(front), line, lines(rest), key);
    assert(lines(front) + (seq![row] + lines(rest)) =~= lines(front) + seq![row] + lines(rest));
    assert(row =~= none + key + line);
    assert(line[0] == gap[0]);
    a_word_comes_off(none, key, line);
    a_word_comes_off(gap, word, tail);
    assert(words(row) == seq![key] + (seq![word] + words(tail)));
}

/// A row that no line begins is not found.
pub proof fn a_missing_row_is_not_found(file: Seq<char>, key: Seq<char>)
    requires
        forall|i: int| 0 <= i < lines(file).len() ==> !begins(#[trigger] lines(file)[i], key),
    ensures
        first_with(lines(file), key) is None,
{
    the_first_that_begins_so(lines(file), Seq::empty(), Seq::empty(), key);
}

/// A printed number is one word.
pub proof fn a_number_is_a_word(n: nat)
    ensures
        is_word(decimal(n)),
        decimal(n).len() > 0,
{
    decimal_is_shortest(n);
    assert forall|i: int| 0 <= i < decimal(n).len() implies !is_space(#[trigger] decimal(n)[i]) by {
        assert('0' <= decimal(n)[i] <= '9');
    }
}

/// Something is wrong with a text exactly where it writes no number that is allowed:
/// with an empty one that it is empty, with a number above the largest that it is too
/// large, and with what does not begin as a number the digit it begins with.
pub proof fn a_fault_is_why_it_is_no_number(s: Seq<char>, n: nat, max: nat)
    ensures
        fault(s, max) is None <==> parsed(s, max) is Some,
        fault(Seq::<char>::empty(), max) == Some(NumberFault::Empty),
        n > max ==> fault(decimal(n), max) == Some(NumberFault::TooLarge),
        s.len() > 0 && s[0] != '+' && !('0' <= s[0] && s[0] <= '9') ==> fault(s, max) == Some(
            NumberFault::InvalidDigit,
        ),
{
    lemma_decimal(n);
    let digits = decimal(n);
    assert(unsigned_digits(digits) == digits) by {
        assert(is_digit(digits[0]));
    }
    assert(digits.take(digits.len() as int) =~= digits);
    if n > max {
        assert(exceeds(digits, digits.len() as int, max));
    }
    if s.len() > 0 && s[0] != '+' && !('0' <= s[0] && s[0] <= '9') {
        only_digits_are_a_number(s, 0, max);
        assert forall|k: int| !exceeds(unsigned_digits(s), k, max) by {
            if exceeds(s, k, max) {
                if k > 0 {
                    assert(s.take(k)[0] == s[0]);
                } else {
                    assert(s.take(k) =~= Seq::<char>::empty());
                }
            }
        }
    }
}

/// What a text ends with is found in it.
pub proof fn a_tail_is_found(front: Seq<char>, a: Seq<char>, b: Seq<char>, c: Seq<char>)
    ensures
        occurs(front + a + b + c, a + b + c),
{
    let none = Seq::<char>::empty();
    assert(front + a + b + c =~= front + (a + b + c) + none);
    what_is_put_in_is_found(front, a + b + c, none);
}

} // verus!
