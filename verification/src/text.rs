//! Text primitives: trimming, line splitting, prefixes and suffixes.
//!
//! A string is modelled by the sequence of its characters.

use vstd::prelude::*;
use vstd::string::*;

verus! {

/// The characters with the Unicode `White_Space` property.
pub open spec fn is_white(c: char) -> bool {
    ||| '\u{9}' <= c <= '\u{d}'
    ||| c == '\u{20}'
    ||| c == '\u{85}'
    ||| c == '\u{a0}'
    ||| c == '\u{1680}'
    ||| '\u{2000}' <= c <= '\u{200a}'
    ||| c == '\u{2028}'
    ||| c == '\u{2029}'
    ||| c == '\u{202f}'
    ||| c == '\u{205f}'
    ||| c == '\u{3000}'
}

/// True for a character with the Unicode `White_Space` property.
pub fn is_white_space(c: char) -> (white: bool)
    ensures
        white == is_white(c),
{
    ('\u{9}' <= c && c <= '\u{d}') || c == '\u{20}' || c == '\u{85}' || c == '\u{a0}'
        || c == '\u{1680}' || ('\u{2000}' <= c && c <= '\u{200a}') || c == '\u{2028}'
        || c == '\u{2029}' || c == '\u{202f}' || c == '\u{205f}' || c == '\u{3000}'
}

/// `s` without its leading white space.
pub open spec fn trimmed_start(s: Seq<char>) -> Seq<char>
    decreases s.len(),
{
    if s.len() > 0 && is_white(s.first()) {
        trimmed_start(s.drop_first())
    } else {
        s
    }
}

/// `s` without its trailing white space.
pub open spec fn trimmed_end(s: Seq<char>) -> Seq<char>
    decreases s.len(),
{
    if s.len() > 0 && is_white(s.last()) {
        trimmed_end(s.drop_last())
    } else {
        s
    }
}

/// `s` without white space at either end.
pub open spec fn trimmed(s: Seq<char>) -> Seq<char> {
    trimmed_end(trimmed_start(s))
}

/// `s` begins with `prefix`.
pub open spec fn has_prefix(s: Seq<char>, prefix: Seq<char>) -> bool {
    prefix.len() <= s.len() && s.take(prefix.len() as int) == prefix
}

/// `s` ends with `suffix`.
pub open spec fn has_suffix(s: Seq<char>, suffix: Seq<char>) -> bool {
    suffix.len() <= s.len() && s.skip(s.len() - suffix.len()) == suffix
}

/// The lines of `s`: a line feed ends a line, and what follows the last one is a line too.
pub open spec fn split_lines(s: Seq<char>) -> Seq<Seq<char>>
    decreases s.len(),
{
    if s.len() == 0 {
        seq![Seq::<char>::empty()]
    } else {
        let before = split_lines(s.drop_last());
        if s.last() == '\n' {
            before.push(Seq::empty())
        } else {
            before.drop_last().push(before.last().push(s.last()))
        }
    }
}

/// The characters of `s`.
pub fn chars_of(s: &str) -> (chars: Vec<char>)
    ensures
        chars@ == s@,
{
    let mut chars: Vec<char> = Vec::new();
    for c in it: s.chars()
        invariant
            it.seq() == s@,
            chars@ == s@.take(it.index() as int),
    {
        chars.push(c);
        assert(chars@ =~= s@.take(it.index() as int + 1));
    }
    assert(s@.take(s@.len() as int) =~= s@);
    chars
}

/// `a` holds `b` at `from`, character for character.
fn chars_at(a: &Vec<char>, from: usize, b: &Vec<char>) -> (same: bool)
    requires
        from + b@.len() <= a@.len(),
    ensures
        same == (a@.subrange(from as int, from + b@.len()) == b@),
{
    let n: usize = a.len();
    let mut i: usize = 0;
    while i < b.len()
        invariant
            i <= b@.len(),
            from + b@.len() <= a@.len(),
            n == a@.len(),
            a@.subrange(from as int, from + i) == b@.take(i as int),
        decreases b@.len() - i,
    {
        if a[from + i] != b[i] {
            assert(a@.subrange(from as int, from + b@.len())[i as int] != b@[i as int]);
            return false;
        }
        assert(a@.subrange(from as int, from + i + 1) =~= a@.subrange(from as int, from + i).push(
            a@[from + i],
        ));
        assert(b@.take(i + 1) =~= b@.take(i as int).push(b@[i as int]));
        i = i + 1;
    }
    assert(b@.take(i as int) =~= b@);
    true
}

/// True when the two texts are the same.
pub fn same_text(a: &str, b: &str) -> (same: bool)
    ensures
        same == (a@ == b@),
{
    let x: Vec<char> = chars_of(a);
    let y: Vec<char> = chars_of(b);
    if x.len() != y.len() {
        return false;
    }
    let same: bool = chars_at(&x, 0, &y);
    assert(x@.subrange(0, y@.len() as int) =~= x@);
    same
}

/// True when `s` begins with `prefix`.
pub fn starts_with(s: &str, prefix: &str) -> (yes: bool)
    ensures
        yes == has_prefix(s@, prefix@),
{
    let x: Vec<char> = chars_of(s);
    let y: Vec<char> = chars_of(prefix);
    if y.len() > x.len() {
        return false;
    }
    assert(x@.subrange(0, y@.len() as int) =~= x@.take(y@.len() as int));
    chars_at(&x, 0, &y)
}

/// True when `s` ends with `suffix`.
pub fn ends_with(s: &str, suffix: &str) -> (yes: bool)
    ensures
        yes == has_suffix(s@, suffix@),
{
    let x: Vec<char> = chars_of(s);
    let y: Vec<char> = chars_of(suffix);
    if y.len() > x.len() {
        return false;
    }
    let from: usize = x.len() - y.len();
    assert(x@.subrange(from as int, from + y@.len()) =~= x@.skip(from as int));
    chars_at(&x, from, &y)
}

/// What follows `prefix` in `s`, when `s` begins with it.
pub fn strip_prefix<'a>(s: &'a str, prefix: &str) -> (rest: Option<&'a str>)
    ensures
        rest is Some == has_prefix(s@, prefix@),
        rest matches Some(r) ==> r@ == s@.skip(prefix@.len() as int),
{
    if !starts_with(s, prefix) {
        return None;
    }
    let n: usize = s.unicode_len();
    let k: usize = prefix.unicode_len();
    assert(s@.subrange(k as int, n as int) =~= s@.skip(k as int));
    Some(s.substring_char(k, n))
}

/// What precedes `suffix` in `s`, when `s` ends with it.
pub fn strip_suffix<'a>(s: &'a str, suffix: &str) -> (rest: Option<&'a str>)
    ensures
        rest is Some == has_suffix(s@, suffix@),
        rest matches Some(r) ==> r@ == s@.take(s@.len() - suffix@.len()),
{
    if !ends_with(s, suffix) {
        return None;
    }
    let n: usize = s.unicode_len();
    let k: usize = suffix.unicode_len();
    assert(s@.subrange(0, n - k) =~= s@.take(n - k));
    Some(s.substring_char(0, n - k))
}

/// True when `c` occurs in `s`.
pub fn contains_char(s: &str, c: char) -> (yes: bool)
    ensures
        yes == s@.contains(c),
{
    let x: Vec<char> = chars_of(s);
    let mut i: usize = 0;
    while i < x.len()
        invariant
            i <= x@.len(),
            x@ == s@,
            forall|j: int| 0 <= j < i ==> x@[j] != c,
        decreases x@.len() - i,
    {
        if x[i] == c {
            assert(s@[i as int] == c);
            return true;
        }
        i = i + 1;
    }
    false
}

/// The part of `s` before the first `c`, or all of `s` where `c` does not occur.
pub open spec fn text_before(s: Seq<char>, c: char) -> Seq<char>
    decreases s.len(),
{
    if s.len() == 0 || s.first() == c {
        Seq::empty()
    } else {
        seq![s.first()] + text_before(s.drop_first(), c)
    }
}

proof fn lemma_text_before(s: Seq<char>, c: char, n: int)
    requires
        0 <= n <= s.len(),
        forall|j: int| 0 <= j < n ==> s[j] != c,
        n < s.len() ==> s[n] == c,
    ensures
        text_before(s, c) == s.take(n),
    decreases s.len(),
{
    if n > 0 {
        lemma_text_before(s.drop_first(), c, n - 1);
        assert(s.take(n) =~= seq![s.first()] + s.drop_first().take(n - 1));
    } else {
        assert(s.take(0) =~= Seq::empty());
    }
}

/// The part of `s` before the first `c`, or all of `s` where `c` does not occur.
pub fn before_char<'a>(s: &'a str, c: char) -> (head: &'a str)
    ensures
        head@ == text_before(s@, c),
{
    let x: Vec<char> = chars_of(s);
    let mut i: usize = 0;
    while i < x.len() && x[i] != c
        invariant
            i <= x@.len(),
            x@ == s@,
            forall|j: int| 0 <= j < i ==> x@[j] != c,
        decreases x@.len() - i,
    {
        i = i + 1;
    }
    proof {
        lemma_text_before(s@, c, i as int);
        assert(s@.subrange(0, i as int) =~= s@.take(i as int));
    }
    s.substring_char(0, i)
}

proof fn lemma_trimmed_start(s: Seq<char>, n: int)
    requires
        0 <= n <= s.len(),
        forall|j: int| 0 <= j < n ==> is_white(s[j]),
        n < s.len() ==> !is_white(s[n]),
    ensures
        trimmed_start(s) == s.skip(n),
    decreases s.len(),
{
    if n > 0 {
        lemma_trimmed_start(s.drop_first(), n - 1);
        assert(s.drop_first().skip(n - 1) =~= s.skip(n));
    } else {
        assert(s.skip(0) =~= s);
    }
}

proof fn lemma_trimmed_end(s: Seq<char>, n: int)
    requires
        0 <= n <= s.len(),
        forall|j: int| n <= j < s.len() ==> is_white(s[j]),
        n > 0 ==> !is_white(s[n - 1]),
    ensures
        trimmed_end(s) == s.take(n),
    decreases s.len(),
{
    if n < s.len() {
        lemma_trimmed_end(s.drop_last(), n);
        assert(s.drop_last().take(n) =~= s.take(n));
    } else {
        assert(s.take(n) =~= s);
    }
}

/// `s` without white space at either end.
pub fn trim<'a>(s: &'a str) -> (t: &'a str)
    ensures
        t@ == trimmed(s@),
{
    let x: Vec<char> = chars_of(s);
    let mut a: usize = 0;
    while a < x.len() && is_white_space(x[a])
        invariant
            a <= x@.len(),
            forall|j: int| 0 <= j < a ==> is_white(x@[j]),
        decreases x@.len() - a,
    {
        a = a + 1;
    }
    let mut b: usize = x.len();
    while a < b && is_white_space(x[b - 1])
        invariant
            a <= b <= x@.len(),
            forall|j: int| b <= j < x@.len() ==> is_white(x@[j]),
        decreases b,
    {
        b = b - 1;
    }
    proof {
        lemma_trimmed_start(s@, a as int);
        let rest = s@.skip(a as int);
        assert forall|j: int| b - a <= j < rest.len() implies is_white(rest[j]) by {
            assert(rest[j] == x@[j + a]);
        }
        lemma_trimmed_end(rest, b - a);
        assert(rest.take(b - a) =~= s@.subrange(a as int, b as int));
    }
    s.substring_char(a, b)
}

/// The trimmed lines of `s`.
pub open spec fn trimmed_lines(s: Seq<char>) -> Seq<Seq<char>> {
    split_lines(s).map_values(|line: Seq<char>| trimmed(line))
}

/// The views of a list of strings.
pub open spec fn texts(list: Seq<String>) -> Seq<Seq<char>> {
    list.map_values(|t: String| t@)
}

/// The lines of `s`, each without white space at its ends.
///
/// A carriage return before the line feed is white space, so it goes with the rest.
pub fn lines_of(s: &str) -> (lines: Vec<String>)
    ensures
        texts(lines@) == trimmed_lines(s@),
{
    let x: Vec<char> = chars_of(s);
    let mut lines: Vec<String> = Vec::new();
    let mut start: usize = 0;
    let mut i: usize = 0;
    let ghost f = |line: Seq<char>| trimmed(line);
    proof {
        assert(x@.take(0) =~= Seq::empty());
        assert(x@.subrange(0, 0) =~= Seq::empty());
        assert(texts(lines@) =~= split_lines(x@.take(0)).drop_last().map_values(f));
    }
    while i < x.len()
        invariant
            x@ == s@,
            start <= i <= x@.len(),
            f == (|line: Seq<char>| trimmed(line)),
            ({
                let all = split_lines(x@.take(i as int));
                &&& all.len() == lines@.len() + 1
                &&& all.last() == x@.subrange(start as int, i as int)
                &&& texts(lines@) == all.drop_last().map_values(f)
            }),
        decreases x@.len() - i,
    {
        let ghost all = split_lines(x@.take(i as int));
        assert(x@.take(i + 1).drop_last() =~= x@.take(i as int));
        if x[i] == '\n' {
            let line: String = trim(s.substring_char(start, i)).to_owned();
            let ghost before = lines@;
            lines.push(line);
            start = i + 1;
            proof {
                let next = split_lines(x@.take(i + 1));
                assert(next == all.push(Seq::empty()));
                assert(next.drop_last() =~= all);
                assert(texts(lines@) =~= texts(before).push(trimmed(all.last())));
                assert(all.map_values(f) =~= all.drop_last().map_values(f).push(
                    trimmed(all.last()),
                ));
                assert(x@.subrange(start as int, i + 1) =~= Seq::empty());
            }
        } else {
            proof {
                let next = split_lines(x@.take(i + 1));
                assert(next == all.drop_last().push(all.last().push(x@[i as int])));
                assert(next.drop_last() =~= all.drop_last());
                assert(x@.subrange(start as int, i + 1) =~= all.last().push(x@[i as int]));
            }
        }
        i = i + 1;
    }
    let ghost before = lines@;
    let line: String = trim(s.substring_char(start, i)).to_owned();
    lines.push(line);
    proof {
        assert(x@.take(i as int) =~= s@);
        let all = split_lines(s@);
        assert(texts(lines@) =~= texts(before).push(trimmed(all.last())));
        assert(all.map_values(f) =~= all.drop_last().map_values(f).push(trimmed(all.last())));
    }
    lines
}

/// `a` stands before `b` in lexicographic order.
pub open spec fn text_less(a: Seq<char>, b: Seq<char>) -> bool
    decreases a.len(),
{
    if b.len() == 0 {
        false
    } else if a.len() == 0 {
        true
    } else if a.first() != b.first() {
        a.first() < b.first()
    } else {
        text_less(a.drop_first(), b.drop_first())
    }
}

/// The texts stand in strictly ascending order, so none stands there twice.
pub open spec fn strictly_sorted(list: Seq<Seq<char>>) -> bool {
    forall|i: int, j: int|
        0 <= i < j < list.len() ==> text_less(#[trigger] list[i], #[trigger] list[j])
}

/// No text stands before itself.
pub proof fn lemma_text_less_irreflexive(a: Seq<char>)
    ensures
        !text_less(a, a),
    decreases a.len(),
{
    if a.len() > 0 {
        lemma_text_less_irreflexive(a.drop_first());
    }
}

/// What stands before a text stands before all that follows it.
pub proof fn lemma_text_less_transitive(a: Seq<char>, b: Seq<char>, c: Seq<char>)
    requires
        text_less(a, b),
        text_less(b, c),
    ensures
        text_less(a, c),
    decreases a.len(),
{
    if a.len() > 0 && a.first() == b.first() && b.first() == c.first() {
        lemma_text_less_transitive(a.drop_first(), b.drop_first(), c.drop_first());
    }
}

/// Of two different texts one stands before the other.
pub proof fn lemma_text_less_total(a: Seq<char>, b: Seq<char>)
    requires
        a != b,
    ensures
        text_less(a, b) || text_less(b, a),
    decreases a.len(),
{
    if a.len() > 0 && b.len() > 0 && a.first() == b.first() {
        if a.drop_first() == b.drop_first() {
            assert(a =~= seq![a.first()] + a.drop_first());
            assert(b =~= seq![b.first()] + b.drop_first());
        }
        lemma_text_less_total(a.drop_first(), b.drop_first());
    } else if a.len() == 0 && b.len() == 0 {
        assert(a =~= b);
    }
}

/// Two strictly ascending lists of the same texts are the same list.
pub proof fn lemma_sorted_list_is_unique(a: Seq<Seq<char>>, b: Seq<Seq<char>>)
    requires
        strictly_sorted(a),
        strictly_sorted(b),
        forall|t: Seq<char>| a.contains(t) <==> b.contains(t),
    ensures
        a == b,
    decreases a.len(),
{
    if a.len() == 0 {
        if b.len() > 0 {
            assert(b.contains(b[0]));
        }
        assert(a =~= b);
    } else {
        assert(a.contains(a.last()));
        assert(b.contains(a.last()));
        assert(b.contains(b.last()));
        assert(a.contains(b.last()));
        let i = choose|i: int| 0 <= i < b.len() && b[i] == a.last();
        let j = choose|j: int| 0 <= j < a.len() && a[j] == b.last();
        if a.last() != b.last() {
            assert(text_less(b[i], b.last()));
            assert(text_less(a[j], a.last()));
            lemma_text_less_transitive(a.last(), b.last(), a.last());
            lemma_text_less_irreflexive(a.last());
        }
        assert forall|t: Seq<char>| a.drop_last().contains(t) <==> b.drop_last().contains(t) by {
            lemma_drop_last_contains(a, t);
            lemma_drop_last_contains(b, t);
        }
        lemma_sorted_list_is_unique(a.drop_last(), b.drop_last());
        assert(a =~= a.drop_last().push(a.last()));
        assert(b =~= b.drop_last().push(b.last()));
    }
}

proof fn lemma_drop_last_contains(a: Seq<Seq<char>>, t: Seq<char>)
    requires
        a.len() > 0,
        strictly_sorted(a),
    ensures
        a.drop_last().contains(t) <==> (a.contains(t) && t != a.last()),
{
    if a.drop_last().contains(t) {
        let i = choose|i: int| 0 <= i < a.drop_last().len() && a.drop_last()[i] == t;
        assert(a[i] == t);
        assert(text_less(a[i], a.last()));
        lemma_text_less_irreflexive(t);
    } else if a.contains(t) && t != a.last() {
        let i = choose|i: int| 0 <= i < a.len() && a[i] == t;
        assert(a.drop_last()[i] == t);
    }
}

/// True when `a` stands before `b` in lexicographic order.
pub fn is_text_less(a: &str, b: &str) -> (less: bool)
    ensures
        less == text_less(a@, b@),
{
    let x: Vec<char> = chars_of(a);
    let y: Vec<char> = chars_of(b);
    let mut i: usize = 0;
    assert(x@.skip(0) =~= a@);
    assert(y@.skip(0) =~= b@);
    while i < x.len() && i < y.len()
        invariant
            i <= x@.len(),
            i <= y@.len(),
            text_less(a@, b@) == text_less(x@.skip(i as int), y@.skip(i as int)),
        decreases x@.len() - i,
    {
        if x[i] != y[i] {
            return x[i] < y[i];
        }
        assert(x@.skip(i as int).drop_first() =~= x@.skip(i + 1));
        assert(y@.skip(i as int).drop_first() =~= y@.skip(i + 1));
        i = i + 1;
    }
    i < y.len()
}

/// A text with a prefix is the prefix and the rest, and one with a suffix the rest and the suffix.
pub proof fn law_prefix_and_suffix_are_the_ends(s: Seq<char>, part: Seq<char>, rest: Seq<char>)
    ensures
        has_prefix(part + rest, part),
        has_suffix(rest + part, part),
        has_prefix(s, part) ==> s == part + s.skip(part.len() as int),
        has_suffix(s, part) ==> s == s.take(s.len() - part.len()) + part,
{
    assert((part + rest).take(part.len() as int) =~= part);
    assert((rest + part).skip(rest.len() as int) =~= part);
    if has_prefix(s, part) {
        assert(s =~= s.take(part.len() as int) + s.skip(part.len() as int));
    }
    if has_suffix(s, part) {
        assert(s =~= s.take(s.len() - part.len()) + s.skip(s.len() - part.len()));
    }
}

/// Every character of a text is white space.
pub open spec fn all_white(s: Seq<char>) -> bool {
    forall|i: int| 0 <= i < s.len() ==> is_white(#[trigger] s[i])
}

/// Blanks, tabs, line feeds and carriage returns are white space; printable ASCII is not.
pub proof fn law_blanks_are_white_space(c: char)
    ensures
        is_white(' ') && is_white('\t') && is_white('\n') && is_white('\r'),
        '!' <= c <= '~' ==> !is_white(c),
{
}

/// Trimming takes the white space away at both ends and nothing else: what begins and ends with
/// another character stays, and of white space alone nothing does.
pub proof fn law_trimming_keeps_the_text(before: Seq<char>, s: Seq<char>, after: Seq<char>)
    requires
        all_white(before),
        all_white(after),
        s.len() > 0 ==> !is_white(s.first()) && !is_white(s.last()),
    ensures
        trimmed(before + s + after) == s,
{
    let whole = before + s + after;
    let tail = s + after;
    let n = before.len() as int;
    assert(whole =~= before + tail);
    if s.len() == 0 {
        assert forall|j: int| 0 <= j < whole.len() implies is_white(whole[j]) by {
            if j < n {
                assert(whole[j] == before[j]);
            } else {
                assert(whole[j] == after[j - n]);
            }
        }
        lemma_trimmed_start(whole, whole.len() as int);
        assert(whole.skip(whole.len() as int) =~= s);
        lemma_trimmed_end(s, 0);
        assert(s.take(0) =~= s);
    } else {
        assert(whole[n] == s[0]);
        assert forall|j: int| 0 <= j < n implies is_white(whole[j]) by {
            assert(whole[j] == before[j]);
        }
        lemma_trimmed_start(whole, n);
        assert(whole.skip(n) =~= tail);
        assert forall|j: int| s.len() <= j < tail.len() implies is_white(tail[j]) by {
            assert(tail[j] == after[j - s.len()]);
        }
        assert(tail[s.len() - 1] == s.last());
        lemma_trimmed_end(tail, s.len() as int);
        assert(tail.take(s.len() as int) =~= s);
    }
}

proof fn lemma_split_lines_end(s: Seq<char>)
    ensures
        split_lines(s).len() >= 1,
    decreases s.len(),
{
    if s.len() > 0 {
        lemma_split_lines_end(s.drop_last());
    }
}

/// A line feed parts a text into lines and stands in none of them: the lines of two texts with a
/// line feed between them are the lines of the one and then those of the other, and a text without
/// one is a single line.
pub proof fn law_line_feeds_part_the_lines(a: Seq<char>, b: Seq<char>)
    ensures
        split_lines(a.push('\n') + b) == split_lines(a) + split_lines(b),
        trimmed_lines(a.push('\n') + b) == trimmed_lines(a) + trimmed_lines(b),
        !a.contains('\n') ==> split_lines(a) == seq![a] && trimmed_lines(a) == seq![trimmed(a)],
{
    lemma_lines_join(a, b);
    assert(trimmed_lines(a.push('\n') + b) =~= trimmed_lines(a) + trimmed_lines(b));
    if !a.contains('\n') {
        lemma_single_line(a);
        assert(trimmed_lines(a) =~= seq![trimmed(a)]);
    }
}

proof fn lemma_lines_join(a: Seq<char>, b: Seq<char>)
    ensures
        split_lines(a.push('\n') + b) == split_lines(a) + split_lines(b),
    decreases b.len(),
{
    let whole = a.push('\n') + b;
    if b.len() == 0 {
        assert(whole.drop_last() =~= a);
        assert(whole.last() == '\n');
        assert(split_lines(whole) =~= split_lines(a) + split_lines(b));
    } else {
        lemma_lines_join(a, b.drop_last());
        lemma_split_lines_end(b.drop_last());
        assert(whole.drop_last() =~= a.push('\n') + b.drop_last());
        assert(whole.last() == b.last());
        let first = split_lines(a);
        let second = split_lines(b.drop_last());
        assert((first + second).drop_last() =~= first + second.drop_last());
        assert((first + second).last() == second.last());
        assert(split_lines(whole) =~= split_lines(a) + split_lines(b));
    }
}

proof fn lemma_single_line(a: Seq<char>)
    requires
        !a.contains('\n'),
    ensures
        split_lines(a) == seq![a],
    decreases a.len(),
{
    if a.len() > 0 {
        assert(a.contains(a.last()));
        assert(!a.drop_last().contains('\n')) by {
            if a.drop_last().contains('\n') {
                let i = choose|i: int| 0 <= i < a.drop_last().len() && a.drop_last()[i] == '\n';
                assert(a[i] == '\n');
            }
        }
        lemma_single_line(a.drop_last());
        assert(a.drop_last().push(a.last()) =~= a);
        assert(split_lines(a) =~= seq![a]);
    } else {
        assert(a =~= Seq::empty());
    }
}

/// What stands before a character is all up to its first occurrence, and the whole text where it
/// does not occur.
pub proof fn law_text_before_ends_at_the_first(a: Seq<char>, c: char, b: Seq<char>)
    requires
        !a.contains(c),
    ensures
        text_before(a.push(c) + b, c) == a,
        text_before(a, c) == a,
{
    let whole = a.push(c) + b;
    let n = a.len() as int;
    assert forall|j: int| 0 <= j < n implies whole[j] != c by {
        assert(whole[j] == a[j]);
        assert(a.contains(a[j]));
    }
    assert forall|j: int| 0 <= j < n implies a[j] != c by {
        assert(a.contains(a[j]));
    }
    lemma_text_before(whole, c, n);
    lemma_text_before(a, c, n);
    assert(whole.take(n) =~= a);
    assert(a.take(n) =~= a);
}

/// Texts are ordered by their first different character, and one that goes on stands behind what it
/// begins with.
pub proof fn law_texts_are_ordered_by_the_first_difference(
    common: Seq<char>,
    a: Seq<char>,
    b: Seq<char>,
)
    ensures
        a.len() > 0 && b.len() > 0 && a[0] < b[0] ==> text_less(common + a, common + b)
            && !text_less(common + b, common + a),
        a.len() > 0 ==> text_less(common, common + a) && !text_less(common + a, common),
        !text_less(common, common),
    decreases common.len(),
{
    if common.len() == 0 {
        assert(common + a =~= a);
        assert(common + b =~= b);
    } else {
        law_texts_are_ordered_by_the_first_difference(common.drop_first(), a, b);
        assert((common + a).drop_first() =~= common.drop_first() + a);
        assert((common + b).drop_first() =~= common.drop_first() + b);
    }
}

/// A text that begins with something else than white space is more than that.
pub proof fn lemma_trimmed_is_not_empty(s: Seq<char>)
    requires
        s.len() > 0,
        !is_white(s.first()),
    ensures
        trimmed(s).len() > 0,
{
    lemma_first_stays(s);
}

proof fn lemma_first_stays(s: Seq<char>)
    requires
        s.len() > 0,
        !is_white(s.first()),
    ensures
        trimmed_end(s).len() > 0,
    decreases s.len(),
{
    if is_white(s.last()) {
        assert(s.drop_last().first() == s.first());
        lemma_first_stays(s.drop_last());
    }
}

} // verus!
