//! Character-level text primitives shared by the rest of the crate.
//!
//! Text is handled as a sequence of Unicode scalar values: the executable
//! functions work on `Vec<char>`, their contracts on `Seq<char>`.

use vstd::prelude::*;

verus! {

/// Appends one character to a string.
pub assume_specification[ String::push ](s: &mut String, ch: char)
    ensures
        final(s)@ == old(s)@.push(ch),
;

/// The characters of `s`, in order.
pub fn chars_of(s: &str) -> (chars: Vec<char>)
    ensures
        chars@ == s@,
{
    broadcast use vstd::string::group_string_axioms;

    let mut chars: Vec<char> = Vec::new();
    for c in iter: s.chars()
        invariant
            iter.seq() == s@,
            chars@ == s@.take(iter.index() as int),
    {
        chars.push(c);
    }
    chars
}

/// The string whose characters are `chars`.
pub fn string_of(chars: &Vec<char>) -> (s: String)
    ensures
        s@ == chars@,
{
    let mut s = String::new();
    let mut i: usize = 0;
    while i < chars.len()
        invariant
            i <= chars.len(),
            s@ == chars@.take(i as int),
        decreases chars.len() - i,
    {
        s.push(chars[i]);
        i += 1;
    }
    s
}

/// The views of a sequence of values.
pub open spec fn view_all<T: View>(items: Seq<T>) -> Seq<T::V> {
    Seq::new(items.len(), |i: int| items[i]@)
}

/// The views of a sequence with one more value are the views with one more.
pub proof fn lemma_view_all_push<T: View>(items: Seq<T>, last: T)
    ensures
        view_all(items.push(last)) == view_all(items).push(last@),
{
}

/// The views of a sequence without its last value are the views without the
/// last.
pub proof fn lemma_view_all_drop_last<T: View>(items: Seq<T>)
    requires
        items.len() > 0,
    ensures
        view_all(items.drop_last()) == view_all(items).drop_last(),
        view_all(items).last() == items.last()@,
{
}

/// A copy of `text[from..to]`.
pub(crate) fn slice_of(text: &Vec<char>, from: usize, to: usize) -> (part: Vec<char>)
    requires
        from <= to <= text.len(),
    ensures
        part@ == text@.subrange(from as int, to as int),
{
    let mut part: Vec<char> = Vec::new();
    let mut i: usize = from;
    while i < to
        invariant
            from <= i <= to <= text.len(),
            part@ == text@.subrange(from as int, i as int),
        decreases to - i,
    {
        part.push(text[i]);
        i += 1;
    }
    part
}

/// Appends all of `tail` to `text`.
pub fn extend(text: &mut Vec<char>, tail: &Vec<char>)
    ensures
        final(text)@ == old(text)@ + tail@,
{
    let mut i: usize = 0;
    while i < tail.len()
        invariant
            i <= tail.len(),
            text@ == old(text)@ + tail@.take(i as int),
        decreases tail.len() - i,
    {
        text.push(tail[i]);
        i += 1;
    }
}

/// Whether `text[at..]` begins with `pattern`.
pub open spec fn occurs_at(text: Seq<char>, pattern: Seq<char>, at: int) -> bool {
    &&& 0 <= at
    &&& at + pattern.len() <= text.len()
    &&& text.subrange(at, at + pattern.len()) == pattern
}

/// Whether `pattern` occurs at index `at` of `text`.
pub fn matches_at(text: &Vec<char>, pattern: &Vec<char>, at: usize) -> (found: bool)
    ensures
        found == occurs_at(text@, pattern@, at as int),
{
    if at > text.len() || pattern.len() > text.len() - at {
        return false;
    }
    let mut i: usize = 0;
    while i < pattern.len()
        invariant
            i <= pattern.len(),
            at + pattern.len() <= text.len(),
            text@.subrange(at as int, at + i) == pattern@.take(i as int),
        decreases pattern.len() - i,
    {
        if text[at + i] != pattern[i] {
            return false;
        }
        i += 1;
    }
    assert(pattern@.take(pattern.len() as int) == pattern@);
    true
}

/// Whether `text` begins with `prefix`.
pub fn starts_with(text: &Vec<char>, prefix: &Vec<char>) -> (found: bool)
    ensures
        found == prefix@.is_prefix_of(text@),
{
    matches_at(text, prefix, 0)
}

/// Whether `text` ends with `suffix`.
pub fn ends_with(text: &Vec<char>, suffix: &Vec<char>) -> (found: bool)
    ensures
        found == suffix@.is_suffix_of(text@),
{
    if suffix.len() > text.len() {
        return false;
    }
    matches_at(text, suffix, text.len() - suffix.len())
}

/// Whether `pattern` occurs somewhere in `text`.
pub open spec fn contains(text: Seq<char>, pattern: Seq<char>) -> bool {
    exists|at: int| occurs_at(text, pattern, at)
}

/// Whether `pattern` occurs somewhere in `text`.
pub fn has_substring(text: &Vec<char>, pattern: &Vec<char>) -> (found: bool)
    ensures
        found == contains(text@, pattern@),
{
    if pattern.len() > text.len() {
        return false;
    }
    let last: usize = text.len() - pattern.len();
    let mut at: usize = 0;
    loop
        invariant
            last == text.len() - pattern.len(),
            at <= last,
            forall|k: int| 0 <= k < at ==> !occurs_at(text@, pattern@, k),
        decreases last - at,
    {
        if matches_at(text, pattern, at) {
            return true;
        }
        if at == last {
            return false;
        }
        at += 1;
    }
}

/// The characters that count as white space: the code points that Unicode
/// marks as `White_Space`.
pub open spec fn is_whitespace(c: char) -> bool {
    let code = c as int;
    ||| 0x09 <= code <= 0x0d
    ||| code == 0x20
    ||| code == 0x85
    ||| code == 0xa0
    ||| code == 0x1680
    ||| 0x2000 <= code <= 0x200a
    ||| code == 0x2028
    ||| code == 0x2029
    ||| code == 0x202f
    ||| code == 0x205f
    ||| code == 0x3000
}

/// The code point of `c`.
pub fn code_point(c: char) -> (code: u32)
    ensures
        code == c as int,
{
    c as u32
}

/// Whether `c` is a white space character.
pub fn whitespace(c: char) -> (yes: bool)
    ensures
        yes == is_whitespace(c),
{
    let code: u32 = code_point(c);
    (0x09 <= code && code <= 0x0d) || code == 0x20 || code == 0x85 || code == 0xa0 || code
        == 0x1680 || (0x2000 <= code && code <= 0x200a) || code == 0x2028 || code == 0x2029 || code
        == 0x202f || code == 0x205f || code == 0x3000
}

/// The number of leading white space characters of `text`.
pub open spec fn leading_whitespace(text: Seq<char>) -> nat
    decreases text.len(),
{
    if text.len() > 0 && is_whitespace(text[0]) {
        1 + leading_whitespace(text.drop_first())
    } else {
        0
    }
}

/// `text` without its leading white space.
pub open spec fn trim_start(text: Seq<char>) -> Seq<char> {
    text.skip(leading_whitespace(text) as int)
}

/// A run of white space characters that ends at the first other character is
/// the leading white space.
pub proof fn lemma_leading_whitespace_is(text: Seq<char>, n: nat)
    requires
        n <= text.len(),
        forall|i: int| 0 <= i < n ==> is_whitespace(#[trigger] text[i]),
        n < text.len() ==> !is_whitespace(text[n as int]),
    ensures
        leading_whitespace(text) == n,
    decreases n,
{
    if n > 0 {
        let rest = text.drop_first();
        lemma_leading_whitespace_is(rest, (n - 1) as nat);
    }
}

/// The index of the first character of `text` at or after `from` that is not
/// white space.
pub(crate) fn skip_whitespace(text: &Vec<char>, from: usize) -> (at: usize)
    requires
        from <= text.len(),
    ensures
        at == from + leading_whitespace(text@.skip(from as int)),
        at <= text.len(),
{
    let mut at: usize = from;
    while at < text.len() && whitespace(text[at])
        invariant
            from <= at <= text.len(),
            forall|i: int| from <= i < at ==> is_whitespace(#[trigger] text@[i]),
        decreases text.len() - at,
    {
        at += 1;
    }
    proof {
        let tail = text@.skip(from as int);
        lemma_leading_whitespace_is(tail, (at - from) as nat);
    }
    at
}

/// The number of characters taken by the leading repetitions of `pattern` in
/// `text`. An empty pattern takes none.
pub open spec fn leading_repeats(text: Seq<char>, pattern: Seq<char>) -> nat
    decreases text.len(),
{
    if pattern.len() > 0 && pattern.is_prefix_of(text) {
        pattern.len() + leading_repeats(text.skip(pattern.len() as int), pattern)
    } else {
        0
    }
}

/// The leading repetitions of a pattern do not reach past the text.
pub proof fn lemma_leading_repeats_bound(text: Seq<char>, pattern: Seq<char>)
    ensures
        leading_repeats(text, pattern) <= text.len(),
    decreases text.len(),
{
    if pattern.len() > 0 && pattern.is_prefix_of(text) {
        lemma_leading_repeats_bound(text.skip(pattern.len() as int), pattern);
    }
}

/// The index just past the repetitions of `pattern` that `text` has from
/// `from` on.
pub(crate) fn skip_repeats(text: &Vec<char>, pattern: &Vec<char>, from: usize) -> (at: usize)
    requires
        from <= text.len(),
    ensures
        at == from + leading_repeats(text@.skip(from as int), pattern@),
        at <= text.len(),
{
    proof {
        lemma_leading_repeats_bound(text@.skip(from as int), pattern@);
    }
    if pattern.len() == 0 {
        return from;
    }
    let mut at: usize = from;
    while matches_at(text, pattern, at)
        invariant
            pattern.len() > 0,
            from <= at <= text.len(),
            from + leading_repeats(text@.skip(from as int), pattern@) == at + leading_repeats(
                text@.skip(at as int),
                pattern@,
            ),
        decreases text.len() - at,
    {
        proof {
            let tail = text@.skip(at as int);
            assert(tail.skip(pattern.len() as int) == text@.skip(at + pattern.len()));
        }
        at += pattern.len();
    }
    proof {
        let tail = text@.skip(at as int);
        if pattern@.is_prefix_of(tail) {
            assert(tail.subrange(0, pattern.len() as int) == text@.subrange(
                at as int,
                at + pattern.len(),
            ));
        }
    }
    at
}

/// The length of the first line of `text`, its line feed included; the whole
/// length where `text` holds no line feed.
pub open spec fn first_line_len(text: Seq<char>) -> nat
    decreases text.len(),
{
    if text.len() == 0 {
        0
    } else if text[0] == '\n' {
        1
    } else {
        1 + first_line_len(text.drop_first())
    }
}

/// The first line of `text`, its line feed included.
pub open spec fn first_line(text: Seq<char>) -> Seq<char> {
    text.take(first_line_len(text) as int)
}

/// `line` without the line feed that ends it, if one does.
pub open spec fn without_line_feed(line: Seq<char>) -> Seq<char> {
    if line.len() > 0 && line.last() == '\n' {
        line.drop_last()
    } else {
        line
    }
}

/// The first line ends with the first line feed, or with the text.
pub proof fn lemma_first_line_len(text: Seq<char>)
    ensures
        first_line_len(text) <= text.len(),
        text.len() > 0 ==> first_line_len(text) > 0,
        forall|i: int| 0 <= i < first_line_len(text) - 1 ==> #[trigger] text[i] != '\n',
        first_line_len(text) < text.len() ==> text[first_line_len(text) - 1] == '\n',
    decreases text.len(),
{
    if text.len() > 0 && text[0] != '\n' {
        let rest = text.drop_first();
        lemma_first_line_len(rest);
        assert forall|i: int| 0 <= i < first_line_len(text) - 1 implies #[trigger] text[i]
            != '\n' by {
            if i > 0 {
                assert(text[i] == rest[i - 1]);
            }
        }
    }
}

/// A stretch without line feed that a line feed or the end of the text
/// follows is the first line.
pub proof fn lemma_first_line_len_is(text: Seq<char>, n: nat)
    requires
        n <= text.len(),
        forall|i: int| 0 <= i < n ==> #[trigger] text[i] != '\n',
        n < text.len() ==> text[n as int] == '\n',
    ensures
        first_line_len(text) == if n < text.len() {
            n + 1
        } else {
            n
        },
    decreases n,
{
    if n > 0 {
        let rest = text.drop_first();
        lemma_first_line_len_is(rest, (n - 1) as nat);
    }
}

/// The index just past the line of `text` that begins at `from`.
pub(crate) fn line_end(text: &Vec<char>, from: usize) -> (end: usize)
    requires
        from <= text.len(),
    ensures
        end == from + first_line_len(text@.skip(from as int)),
        from <= end <= text.len(),
        from < text.len() ==> from < end,
{
    let mut at: usize = from;
    while at < text.len() && text[at] != '\n'
        invariant
            from <= at <= text.len(),
            forall|i: int| from <= i < at ==> #[trigger] text@[i] != '\n',
        decreases text.len() - at,
    {
        at += 1;
    }
    proof {
        let tail = text@.skip(from as int);
        lemma_first_line_len_is(tail, (at - from) as nat);
    }
    if at < text.len() {
        at + 1
    } else {
        at
    }
}

/// The lines of `text`, each with the line feed that ends it; the last one may
/// have none.
pub open spec fn lines_of(text: Seq<char>) -> Seq<Seq<char>>
    decreases text.len(),
    via lines_of_decreases
{
    if text.len() == 0 {
        Seq::empty()
    } else {
        seq![first_line(text)] + lines_of(text.skip(first_line_len(text) as int))
    }
}

#[via_fn]
proof fn lines_of_decreases(text: Seq<char>) {
    lemma_first_line_len(text);
}

/// `text` with each occurrence of the character `from` replaced by `to`.
pub open spec fn replace_char(text: Seq<char>, from: char, to: Seq<char>) -> Seq<char>
    decreases text.len(),
{
    if text.len() == 0 {
        Seq::empty()
    } else if text.last() == from {
        replace_char(text.drop_last(), from, to) + to
    } else {
        replace_char(text.drop_last(), from, to).push(text.last())
    }
}

/// `text` with each occurrence of the character `from` replaced by `to`.
pub fn replace_each(text: &Vec<char>, from: char, to: &Vec<char>) -> (replaced: Vec<char>)
    ensures
        replaced@ == replace_char(text@, from, to@),
{
    let mut replaced: Vec<char> = Vec::new();
    let mut i: usize = 0;
    while i < text.len()
        invariant
            i <= text.len(),
            replaced@ == replace_char(text@.take(i as int), from, to@),
        decreases text.len() - i,
    {
        proof {
            let next = text@.take(i + 1);
            assert(next.drop_last() == text@.take(i as int));
        }
        if text[i] == from {
            extend(&mut replaced, to);
        } else {
            replaced.push(text[i]);
        }
        i += 1;
    }
    assert(text@.take(text.len() as int) == text@);
    replaced
}

/// The parts in order, with `separator` between each two.
pub open spec fn join(parts: Seq<Seq<char>>, separator: Seq<char>) -> Seq<char>
    decreases parts.len(),
{
    if parts.len() == 0 {
        Seq::empty()
    } else if parts.len() == 1 {
        parts[0]
    } else {
        join(parts.drop_last(), separator) + separator + parts.last()
    }
}

/// A text that does not hold `from` is left as it is.
pub proof fn lemma_replace_absent(text: Seq<char>, from: char, to: Seq<char>)
    requires
        !text.contains(from),
    ensures
        replace_char(text, from, to) == text,
    decreases text.len(),
{
    if text.len() > 0 {
        let front = text.drop_last();
        lemma_replace_absent(front, from, to);
    }
}

/// Two or more parts joined are the first, the separator, and the others
/// joined.
pub proof fn lemma_join_front(parts: Seq<Seq<char>>, separator: Seq<char>)
    requires
        parts.len() >= 2,
    ensures
        join(parts, separator) == parts[0] + separator + join(parts.drop_first(), separator),
    decreases parts.len(),
{
    let rest = parts.drop_first();
    if parts.len() == 2 {
        assert(join(parts.drop_last(), separator) == parts[0]);
    } else {
        lemma_join_front(parts.drop_last(), separator);
        assert(parts.drop_last().drop_first() =~= rest.drop_last());
    }
}

/// The parts in order, with `separator` between each two.
pub fn join_all(parts: &Vec<Vec<char>>, separator: &Vec<char>) -> (joined: Vec<char>)
    ensures
        joined@ == join(view_all(parts@), separator@),
{
    let mut joined: Vec<char> = Vec::new();
    let mut i: usize = 0;
    while i < parts.len()
        invariant
            i <= parts.len(),
            joined@ == join(view_all(parts@).take(i as int), separator@),
        decreases parts.len() - i,
    {
        proof {
            let next = view_all(parts@).take(i + 1);
            assert(next.drop_last() == view_all(parts@).take(i as int));
        }
        if i > 0 {
            extend(&mut joined, separator);
        }
        extend(&mut joined, &parts[i]);
        i += 1;
    }
    assert(view_all(parts@).take(parts.len() as int) == view_all(parts@));
    joined
}

/// Whether `a` comes before `b`, or is `b`, in the order of a dictionary: the
/// first character in which they differ decides, by its code point, and a text
/// comes before those that continue it.
pub open spec fn lex_le(a: Seq<char>, b: Seq<char>) -> bool
    decreases a.len(),
{
    if a.len() == 0 {
        true
    } else if b.len() == 0 {
        false
    } else if a[0] != b[0] {
        (a[0] as int) < (b[0] as int)
    } else {
        lex_le(a.drop_first(), b.drop_first())
    }
}

/// Of two texts one comes before the other, or they are the same.
pub proof fn lemma_lex_le_total(a: Seq<char>, b: Seq<char>)
    ensures
        lex_le(a, b) || lex_le(b, a),
    decreases a.len(),
{
    if a.len() > 0 && b.len() > 0 && a[0] == b[0] {
        lemma_lex_le_total(a.drop_first(), b.drop_first());
    }
}

/// What comes before a text comes before what that text comes before.
pub proof fn lemma_lex_le_transitive(a: Seq<char>, b: Seq<char>, c: Seq<char>)
    requires
        lex_le(a, b),
        lex_le(b, c),
    ensures
        lex_le(a, c),
    decreases a.len(),
{
    if a.len() > 0 && b.len() > 0 && c.len() > 0 && a[0] == b[0] && b[0] == c[0] {
        lemma_lex_le_transitive(a.drop_first(), b.drop_first(), c.drop_first());
    }
}

/// Two texts of which each comes before the other are the same.
pub proof fn lemma_lex_le_antisymmetric(a: Seq<char>, b: Seq<char>)
    requires
        lex_le(a, b),
        lex_le(b, a),
    ensures
        a == b,
    decreases a.len(),
{
    if a.len() > 0 && b.len() > 0 {
        lemma_lex_le_antisymmetric(a.drop_first(), b.drop_first());
        assert(a =~= seq![a[0]] + a.drop_first());
    }
}

/// Whether `a` comes before `b`, or is `b`, in the order of a dictionary.
pub fn precedes(a: &Vec<char>, b: &Vec<char>) -> (le: bool)
    ensures
        le == lex_le(a@, b@),
{
    let mut i: usize = 0;
    assert(a@.skip(0) == a@ && b@.skip(0) == b@);
    while i < a.len() && i < b.len()
        invariant
            i <= a.len(),
            i <= b.len(),
            lex_le(a@, b@) == lex_le(a@.skip(i as int), b@.skip(i as int)),
        decreases a.len() - i,
    {
        proof {
            let x = a@.skip(i as int);
            let y = b@.skip(i as int);
            assert(x.drop_first() == a@.skip(i + 1));
            assert(y.drop_first() == b@.skip(i + 1));
        }
        if a[i] != b[i] {
            return code_point(a[i]) < code_point(b[i]);
        }
        i += 1;
    }
    i == a.len()
}

/// Whether each text of `list` comes before those that follow it.
pub open spec fn sorted(list: Seq<Seq<char>>) -> bool {
    forall|i: int, j: int| 0 <= i < j < list.len() ==> lex_le(list[i], list[j])
}

/// Two lists in order that hold the same texts, each as often, are the same.
pub proof fn lemma_sorted_unique(a: Seq<Seq<char>>, b: Seq<Seq<char>>)
    requires
        sorted(a),
        sorted(b),
        a.to_multiset() == b.to_multiset(),
    ensures
        a == b,
    decreases a.len(),
{
    broadcast use vstd::multiset::group_multiset_axioms;

    a.to_multiset_ensures();
    b.to_multiset_ensures();
    if a.len() > 0 {
        assert(b.to_multiset().count(a[0]) > 0);
        assert(a.to_multiset().count(b[0]) > 0);
        let j = choose|j: int| 0 <= j < b.len() && b[j] == a[0];
        let k = choose|k: int| 0 <= k < a.len() && a[k] == b[0];
        if j > 0 && k > 0 {
            lemma_lex_le_antisymmetric(a[0], b[0]);
        }
        let x = a.drop_first();
        let y = b.drop_first();
        vstd::seq_lib::to_multiset_remove(a, 0);
        vstd::seq_lib::to_multiset_remove(b, 0);
        lemma_sorted_unique(x, y);
        assert(a =~= seq![a[0]] + x);
    }
}

/// A list in order stays in order when a text is put into it behind those
/// that come before it, and before one that does not.
pub proof fn lemma_insert_in_order(list: Seq<Seq<char>>, at: int, item: Seq<char>)
    requires
        sorted(list),
        0 <= at <= list.len(),
        forall|k: int| 0 <= k < at ==> lex_le(#[trigger] list[k], item),
        at < list.len() ==> !lex_le(list[at], item),
    ensures
        sorted(list.insert(at, item)),
{
    let now = list.insert(at, item);
    assert forall|i: int, j: int| 0 <= i < j < now.len() implies lex_le(now[i], now[j]) by {
        if i == at {
            lemma_lex_le_total(list[at], item);
            if at < j - 1 {
                lemma_lex_le_transitive(item, list[at], list[j - 1]);
            }
        }
    }
}

/// The texts of `list` in the order of a dictionary.
pub open spec fn in_order(list: Seq<Seq<char>>) -> Seq<Seq<char>> {
    choose|ordered: Seq<Seq<char>>| sorted(ordered) && ordered.to_multiset() == list.to_multiset()
}

/// A list in order that holds the texts of `list`, each as often, is `list`
/// in order.
pub proof fn lemma_in_order(list: Seq<Seq<char>>, ordered: Seq<Seq<char>>)
    requires
        sorted(ordered),
        ordered.to_multiset() == list.to_multiset(),
    ensures
        in_order(list) == ordered,
{
    lemma_sorted_unique(in_order(list), ordered);
}

/// The texts of `list` in the order of a dictionary.
pub fn sort(list: Vec<Vec<char>>) -> (ordered: Vec<Vec<char>>)
    ensures
        view_all(ordered@) == in_order(view_all(list@)),
{
    broadcast use vstd::multiset::group_multiset_axioms;

    let ghost given = view_all(list@);
    let ghost all = given.to_multiset();
    let mut ordered: Vec<Vec<char>> = Vec::new();
    let mut list = list;
    proof {
        view_all(ordered@).to_multiset_ensures();
    }
    while list.len() > 0
        invariant
            sorted(view_all(ordered@)),
            view_all(ordered@).to_multiset().add(view_all(list@).to_multiset()) == all,
        decreases list.len(),
    {
        let ghost waiting = view_all(list@);
        let ghost placed = view_all(ordered@);
        let item = list.pop().unwrap();
        let mut at: usize = 0;
        while at < ordered.len() && precedes(&ordered[at], &item)
            invariant
                at <= ordered.len(),
                forall|k: int| 0 <= k < at ==> lex_le(#[trigger] ordered@[k]@, item@),
            decreases ordered.len() - at,
        {
            at += 1;
        }
        ordered.insert(at, item);
        proof {
            assert(view_all(ordered@) =~= placed.insert(at as int, item@));
            lemma_insert_in_order(placed, at as int, item@);
            vstd::seq_lib::to_multiset_insert(placed, at as int, item@);
            assert(waiting =~= view_all(list@).push(item@));
            vstd::seq_lib::to_multiset_build(view_all(list@), item@);
        }
    }
    proof {
        view_all(list@).to_multiset_ensures();
        assert(view_all(ordered@).to_multiset() =~= all);
        lemma_in_order(given, view_all(ordered@));
    }
    ordered
}

/// A list in order is in order, and holds the texts of the list, each as
/// often.
pub proof fn lemma_in_order_exists(list: Seq<Seq<char>>)
    ensures
        sorted(in_order(list)),
        in_order(list).to_multiset() == list.to_multiset(),
    decreases list.len(),
{
    broadcast use vstd::multiset::group_multiset_axioms;

    if list.len() > 0 {
        let front = list.drop_last();
        lemma_in_order_exists(front);
        let placed = in_order(front);
        let item = list.last();
        let at = insertion_point(placed, item) as int;
        lemma_insertion_point(placed, item);
        lemma_insert_in_order(placed, at, item);
        vstd::seq_lib::to_multiset_insert(placed, at, item);
        assert(list =~= front.push(item));
        vstd::seq_lib::to_multiset_build(front, item);
    }
}

/// The number of texts at the front of `list` that come before `item` or are
/// `item`.
pub open spec fn insertion_point(list: Seq<Seq<char>>, item: Seq<char>) -> nat
    decreases list.len(),
{
    if list.len() > 0 && lex_le(list[0], item) {
        1 + insertion_point(list.drop_first(), item)
    } else {
        0
    }
}

/// The insertion point is behind texts that come before `item` and before one
/// that does not.
pub proof fn lemma_insertion_point(list: Seq<Seq<char>>, item: Seq<char>)
    ensures
        insertion_point(list, item) <= list.len(),
        forall|k: int| 0 <= k < insertion_point(list, item) ==> lex_le(#[trigger] list[k], item),
        insertion_point(list, item) < list.len() ==> !lex_le(
            list[insertion_point(list, item) as int],
            item,
        ),
    decreases list.len(),
{
    if list.len() > 0 && lex_le(list[0], item) {
        let rest = list.drop_first();
        lemma_insertion_point(rest, item);
        assert forall|k: int| 0 <= k < insertion_point(list, item) implies lex_le(
            #[trigger] list[k],
            item,
        ) by {
            if k > 0 {
                assert(list[k] == rest[k - 1]);
            }
        }
    }
}

/// The lines of `text`, each with the line feed that ends it.
pub fn split_lines(text: &Vec<char>) -> (lines: Vec<Vec<char>>)
    ensures
        view_all(lines@) == lines_of(text@),
{
    let mut lines: Vec<Vec<char>> = Vec::new();
    let mut from: usize = 0;
    proof {
        assert(text@.skip(0) == text@);
    }
    while from < text.len()
        invariant
            from <= text.len(),
            lines_of(text@) == view_all(lines@) + lines_of(text@.skip(from as int)),
        decreases text.len() - from,
    {
        let end = line_end(text, from);
        let line = slice_of(text, from, end);
        proof {
            let tail = text@.skip(from as int);
            lemma_first_line_len(tail);
            assert(first_line(tail) == line@);
            assert(tail.skip(first_line_len(tail) as int) == text@.skip(end as int));
            lemma_view_all_push(lines@, line);
        }
        lines.push(line);
        from = end;
    }
    lines
}

/// The number of characters at the end of `text` that are `c`, where `same`
/// holds, or that are not `c`, where it does not.
pub open spec fn trailing_run(text: Seq<char>, c: char, same: bool) -> nat
    decreases text.len(),
{
    if text.len() > 0 && (text.last() == c) == same {
        1 + trailing_run(text.drop_last(), c, same)
    } else {
        0
    }
}

/// A trailing run does not reach past the text.
pub proof fn lemma_trailing_run_bound(text: Seq<char>, c: char, same: bool)
    ensures
        trailing_run(text, c, same) <= text.len(),
    decreases text.len(),
{
    if text.len() > 0 && (text.last() == c) == same {
        lemma_trailing_run_bound(text.drop_last(), c, same);
    }
}

/// The index at which the trailing run of `text[..end]` begins.
pub(crate) fn trailing_run_start(text: &Vec<char>, end: usize, c: char, same: bool) -> (start:
    usize)
    requires
        end <= text.len(),
    ensures
        start == end - trailing_run(text@.take(end as int), c, same),
        start <= end,
{
    let mut start: usize = end;
    while start > 0 && (text[start - 1] == c) == same
        invariant
            start <= end <= text.len(),
            end - trailing_run(text@.take(end as int), c, same) == start - trailing_run(
                text@.take(start as int),
                c,
                same,
            ),
        decreases start,
    {
        proof {
            let front = text@.take(start as int);
            assert(front.drop_last() == text@.take(start - 1));
        }
        start -= 1;
    }
    start
}

} // verus!
