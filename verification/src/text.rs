//! Text as sequences of characters: words, whitespace, case and prefixes.
use vstd::prelude::*;
use vstd::string::*;

verus! {

/// The characters with the Unicode property `White_Space`.
pub open spec fn white_space(c: char) -> bool {
    let u = c as u32;
    ||| 0x09 <= u <= 0x0d
    ||| u == 0x20
    ||| u == 0x85
    ||| u == 0xa0
    ||| u == 0x1680
    ||| 0x2000 <= u <= 0x200a
    ||| 0x2028 <= u <= 0x2029
    ||| u == 0x202f
    ||| u == 0x205f
    ||| u == 0x3000
}

/// `char::is_whitespace` tells whether a character has the Unicode property
/// `White_Space`; the contract lists the characters that have it.
pub assume_specification[ char::is_whitespace ](c: char) -> (b: bool)
    ensures
        b == white_space(c),
;

/// `String::push` appends one character at the end.
pub assume_specification[ String::push ](s: &mut String, c: char)
    ensures
        final(s)@ == old(s)@.push(c),
;

/// The characters of a string, in order.
pub fn chars_of(s: &str) -> (v: Vec<char>)
    ensures
        v@ == s@,
{
    let mut v: Vec<char> = Vec::new();
    for c in it: s.chars()
        invariant
            it.seq() == s@,
            v@ == s@.take(it.index()),
    {
        v.push(c);
    }
    v
}

/// The part of `v` from `from` to `to`, as a string.
pub fn string_of_range(v: &Vec<char>, from: usize, to: usize) -> (s: String)
    requires
        from <= to <= v@.len(),
    ensures
        s@ == v@.subrange(from as int, to as int),
{
    let mut s = String::new();
    let mut i: usize = from;
    while i < to
        invariant
            from <= i <= to <= v@.len(),
            s@ == v@.subrange(from as int, i as int),
        decreases to - i,
    {
        s.push(v[i]);
        i += 1;
    }
    s
}

/// Whether no character of `s` is white space.
pub open spec fn solid(s: Seq<char>) -> bool {
    forall|i: int| 0 <= i < s.len() ==> !white_space(#[trigger] s[i])
}

/// A word: at least one character, none of them white space.
pub open spec fn is_word(s: Seq<char>) -> bool {
    s.len() > 0 && solid(s)
}

/// The number of characters before the first white space of `s`.
pub open spec fn word_len(s: Seq<char>) -> nat
    decreases s.len(),
{
    if s.len() == 0 || white_space(s[0]) {
        0
    } else {
        1 + word_len(s.skip(1))
    }
}

/// The words of `s`: its longest stretches without white space, in order.
pub open spec fn words(s: Seq<char>) -> Seq<Seq<char>>
    decreases s.len(),
{
    if s.len() == 0 {
        Seq::empty()
    } else if white_space(s[0]) {
        words(s.skip(1))
    } else {
        proof {
            lemma_word_len(s);
        }
        seq![s.take(word_len(s) as int)] + words(s.skip(word_len(s) as int))
    }
}

/// The first `word_len(s)` characters of `s` are no white space, and the one
/// that follows them is.
pub proof fn lemma_word_len(s: Seq<char>)
    ensures
        word_len(s) <= s.len(),
        solid(s.take(word_len(s) as int)),
        word_len(s) < s.len() ==> white_space(s[word_len(s) as int]),
        s.len() > 0 && !white_space(s[0]) ==> word_len(s) > 0,
    decreases s.len(),
{
    if s.len() > 0 && !white_space(s[0]) {
        lemma_word_len(s.skip(1));
        let n = word_len(s.skip(1));
        assert forall|i: int| 0 <= i < n + 1 implies !white_space(
            #[trigger] s.take((n + 1) as int)[i],
        ) by {
            if i > 0 {
                assert(s.skip(1).take(n as int)[i - 1] == s[i]);
            }
        }
    }
}

/// A stretch of `n` characters without white space that ends at white space
/// or at the end of `s` is all of the first word.
proof fn lemma_word_len_is(s: Seq<char>, n: int)
    requires
        0 <= n <= s.len(),
        solid(s.take(n)),
        n < s.len() ==> white_space(s[n]),
    ensures
        word_len(s) == n,
    decreases n,
{
    if n > 0 {
        assert(s.take(n)[0] == s[0]);
        assert forall|i: int| 0 <= i < n - 1 implies !white_space(
            #[trigger] s.skip(1).take(n - 1)[i],
        ) by {
            assert(s.take(n)[i + 1] == s.skip(1).take(n - 1)[i]);
        }
        lemma_word_len_is(s.skip(1), n - 1);
    }
}

/// The words of a text are words.
pub proof fn lemma_words_are_words(s: Seq<char>)
    ensures
        forall|i: int| 0 <= i < words(s).len() ==> is_word(#[trigger] words(s)[i]),
    decreases s.len(),
{
    if s.len() > 0 {
        if white_space(s[0]) {
            lemma_words_are_words(s.skip(1));
            assert(words(s) == words(s.skip(1)));
        } else {
            lemma_word_len(s);
            let tail = words(s.skip(word_len(s) as int));
            lemma_words_are_words(s.skip(word_len(s) as int));
            assert forall|i: int| 0 <= i < words(s).len() implies is_word(#[trigger] words(s)[i]) by {
                if i > 0 {
                    assert(words(s)[i] == tail[i - 1]);
                }
            }
        }
    }
}

/// The characters of each string.
pub open spec fn views(v: Seq<String>) -> Seq<Seq<char>> {
    v.map_values(|s: String| s@)
}

/// The words of `text`.
pub fn split_words(text: &str) -> (v: Vec<String>)
    ensures
        views(v@) == words(text@),
{
    let cs = chars_of(text);
    let mut out: Vec<String> = Vec::new();
    let mut i: usize = 0;
    assert(cs@.skip(0) == cs@);
    while i < cs.len()
        invariant
            cs@ == text@,
            i <= cs@.len(),
            words(text@) == views(out@) + words(cs@.skip(i as int)),
        decreases cs@.len() - i,
    {
        let ghost rest = cs@.skip(i as int);
        if cs[i].is_whitespace() {
            assert(rest.skip(1) == cs@.skip(i + 1));
            i += 1;
        } else {
            let start: usize = i;
            while i < cs.len() && !cs[i].is_whitespace()
                invariant
                    start <= i <= cs@.len(),
                    forall|k: int| start <= k < i ==> !white_space(#[trigger] cs@[k]),
                decreases cs@.len() - i,
            {
                i += 1;
            }
            let w = string_of_range(&cs, start, i);
            let ghost before = out@;
            out.push(w);
            proof {
                let n = i - start;
                assert forall|k: int| 0 <= k < n implies !white_space(#[trigger] rest.take(n)[k]) by {
                    assert(rest.take(n)[k] == cs@[start + k]);
                }
                lemma_word_len_is(rest, n);
                assert(rest.take(n) == w@);
                assert(rest.skip(n) == cs@.skip(i as int));
                assert(views(out@) == views(before).push(w@));
                assert(views(before) + (seq![w@] + words(rest.skip(n))) == views(out@) + words(
                    rest.skip(n),
                ));
            }
        }
    }
    assert(words(cs@.skip(i as int)) == Seq::<Seq<char>>::empty());
    out
}

/// The given texts with one space between each two neighbours.
pub open spec fn join(ws: Seq<Seq<char>>) -> Seq<char>
    decreases ws.len(),
{
    if ws.len() == 0 {
        Seq::empty()
    } else if ws.len() == 1 {
        ws[0]
    } else {
        join(ws.drop_last()).push(' ') + ws.last()
    }
}

/// Append one more text to a joined list.
pub fn join_onto(acc: &mut String, first: bool, w: &str)
    ensures
        final(acc)@ == if first {
            old(acc)@ + w@
        } else {
            old(acc)@.push(' ') + w@
        },
{
    if !first {
        acc.push(' ');
    }
    acc.append(w);
}

/// The given strings with one space between each two neighbours.
pub fn join_words(v: &Vec<String>) -> (s: String)
    ensures
        s@ == join(views(v@)),
{
    let mut s = String::new();
    let mut i: usize = 0;
    while i < v.len()
        invariant
            i <= v@.len(),
            s@ == join(views(v@).take(i as int)),
        decreases v@.len() - i,
    {
        proof {
            let t = views(v@).take(i + 1);
            assert(t.drop_last() == views(v@).take(i as int));
            assert(t.last() == v@[i as int]@);
        }
        join_onto(&mut s, i == 0, v[i].as_str());
        i += 1;
    }
    assert(views(v@).take(v@.len() as int) == views(v@));
    s
}

/// A word is its own only word.
proof fn lemma_words_of_word(w: Seq<char>)
    requires
        is_word(w),
    ensures
        words(w) == seq![w],
{
    assert(w.take(w.len() as int) == w);
    lemma_word_len_is(w, w.len() as int);
    assert(words(w.skip(w.len() as int)) == Seq::<Seq<char>>::empty());
    assert(seq![w] + Seq::<Seq<char>>::empty() == seq![w]);
}

/// A space separates words: the words of two texts with a space between them
/// are the words of the first and then those of the second.
pub proof fn lemma_words_concat(a: Seq<char>, b: Seq<char>)
    ensures
        words(a.push(' ') + b) == words(a) + words(b),
    decreases a.len(),
{
    let t = a.push(' ') + b;
    if a.len() == 0 {
        assert(t.skip(1) == b);
        assert(words(a) + words(b) == words(b));
    } else if white_space(a[0]) {
        assert(t.skip(1) == a.skip(1).push(' ') + b);
        lemma_words_concat(a.skip(1), b);
    } else {
        lemma_word_len(a);
        let n = word_len(a) as int;
        assert forall|i: int| 0 <= i < n implies !white_space(#[trigger] t.take(n)[i]) by {
            assert(a.take(n)[i] == t.take(n)[i]);
        }
        lemma_word_len_is(t, n);
        assert(t.take(n) == a.take(n));
        assert(t.skip(n) == a.skip(n).push(' ') + b);
        lemma_words_concat(a.skip(n), b);
        assert(seq![a.take(n)] + (words(a.skip(n)) + words(b)) == (seq![a.take(n)] + words(
            a.skip(n),
        )) + words(b));
    }
}

/// Splitting undoes joining: the words of joined words are those words.
pub proof fn lemma_words_of_join(ws: Seq<Seq<char>>)
    requires
        forall|i: int| 0 <= i < ws.len() ==> is_word(#[trigger] ws[i]),
    ensures
        words(join(ws)) == ws,
    decreases ws.len(),
{
    if ws.len() == 1 {
        lemma_words_of_word(ws[0]);
        assert(seq![ws[0]] == ws);
    } else if ws.len() > 1 {
        lemma_words_of_join(ws.drop_last());
        lemma_words_concat(join(ws.drop_last()), ws.last());
        lemma_words_of_word(ws.last());
        assert(ws.drop_last() + seq![ws.last()] == ws);
    }
}

/// Joining two lists of texts one after the other puts one space between what
/// each of them joins to.
pub proof fn lemma_join_concat(a: Seq<Seq<char>>, b: Seq<Seq<char>>)
    requires
        a.len() > 0,
        b.len() > 0,
    ensures
        join(a + b) == join(a).push(' ') + join(b),
    decreases b.len(),
{
    let ab = a + b;
    assert(ab.last() == b.last());
    if b.len() == 1 {
        assert(ab.drop_last() == a);
    } else {
        lemma_join_concat(a, b.drop_last());
        assert(ab.drop_last() == a + b.drop_last());
    }
}

/// Whether `s` is its words with one space between each two neighbours: no
/// white space at its ends, none doubled.
pub open spec fn single_spaced(s: Seq<char>) -> bool {
    s == join(words(s))
}

/// Two single-spaced texts with a space between them are single-spaced.
pub proof fn lemma_single_spaced(a: Seq<char>, b: Seq<char>)
    requires
        a.len() > 0,
        b.len() > 0,
        single_spaced(a),
        single_spaced(b),
    ensures
        single_spaced(a.push(' ') + b),
{
    lemma_words_concat(a, b);
    lemma_join_concat(words(a), words(b));
}

/// Single-spaced texts that are not empty are single-spaced when joined, and
/// join to nothing only where there is none.
pub proof fn lemma_join_single_spaced(ts: Seq<Seq<char>>)
    requires
        forall|i: int| 0 <= i < ts.len() ==> single_spaced(#[trigger] ts[i]) && ts[i].len() > 0,
    ensures
        single_spaced(join(ts)),
        join(ts).len() == 0 <==> ts.len() == 0,
    decreases ts.len(),
{
    if ts.len() == 1 {
        assert(single_spaced(ts[0]));
    } else if ts.len() > 1 {
        lemma_join_single_spaced(ts.drop_last());
        assert(single_spaced(ts[ts.len() - 1]));
        lemma_single_spaced(join(ts.drop_last()), ts.last());
    }
}

/// `s` without the white space at its end.
pub open spec fn trim_end(s: Seq<char>) -> Seq<char>
    decreases s.len(),
{
    if s.len() > 0 && white_space(s.last()) {
        trim_end(s.drop_last())
    } else {
        s
    }
}

/// `s` without the white space at its start.
pub open spec fn trim_start(s: Seq<char>) -> Seq<char>
    decreases s.len(),
{
    if s.len() > 0 && white_space(s[0]) {
        trim_start(s.skip(1))
    } else {
        s
    }
}

/// `s` without the white space at its two ends.
pub open spec fn trim(s: Seq<char>) -> Seq<char> {
    trim_end(trim_start(s))
}

/// `text` without the white space at its end.
pub fn trimmed_end(text: &str) -> (r: String)
    ensures
        r@ == trim_end(text@),
{
    let cs = chars_of(text);
    let mut n: usize = cs.len();
    assert(cs@.take(n as int) == cs@);
    while n > 0 && cs[n - 1].is_whitespace()
        invariant
            n <= cs@.len(),
            trim_end(cs@.take(n as int)) == trim_end(text@),
        decreases n,
    {
        assert(cs@.take(n as int).drop_last() == cs@.take(n - 1));
        n -= 1;
    }
    assert(cs@.subrange(0, n as int) == cs@.take(n as int));
    string_of_range(&cs, 0, n)
}

/// `text` without the white space at its two ends.
pub fn trimmed(text: &str) -> (r: String)
    ensures
        r@ == trim(text@),
{
    let cs = chars_of(text);
    let mut i: usize = 0;
    assert(cs@.skip(0) == cs@);
    while i < cs.len() && cs[i].is_whitespace()
        invariant
            i <= cs@.len(),
            trim_start(cs@.skip(i as int)) == trim_start(text@),
        decreases cs@.len() - i,
    {
        assert(cs@.skip(i as int).skip(1) == cs@.skip(i + 1));
        i += 1;
    }
    let n: usize = cs.len();
    assert(cs@.subrange(i as int, n as int) == cs@.skip(i as int));
    let from_start = string_of_range(&cs, i, n);
    trimmed_end(from_start.as_str())
}

/// The view of a text that may be absent.
pub open spec fn text_view(t: Option<String>) -> Option<Seq<char>> {
    match t {
        Some(s) => Some(s@),
        None => None,
    }
}

/// Three texts one after the other.
pub fn concat3(a: &str, b: &str, c: &str) -> (s: String)
    ensures
        s@ == a@ + b@ + c@,
{
    let mut s = String::new();
    s.append(a);
    s.append(b);
    s.append(c);
    assert(s@ =~= a@ + b@ + c@);
    s
}

/// The length of the longest common prefix of `a` and `b`.
pub open spec fn common_prefix(a: Seq<char>, b: Seq<char>) -> nat
    decreases a.len(),
{
    if a.len() == 0 || b.len() == 0 || a[0] != b[0] {
        0
    } else {
        1 + common_prefix(a.skip(1), b.skip(1))
    }
}

/// `n` characters agree and the next ones, where both have one, do not.
pub proof fn lemma_common_prefix_is(a: Seq<char>, b: Seq<char>, n: int)
    requires
        0 <= n <= a.len(),
        n <= b.len(),
        a.take(n) == b.take(n),
        n < a.len() && n < b.len() ==> a[n] != b[n],
    ensures
        common_prefix(a, b) == n,
    decreases n,
{
    if n > 0 {
        assert(a.take(n)[0] == a[0] && b.take(n)[0] == b[0]);
        assert(a.skip(1).take(n - 1) == a.take(n).skip(1));
        assert(b.skip(1).take(n - 1) == b.take(n).skip(1));
        lemma_common_prefix_is(a.skip(1), b.skip(1), n - 1);
    }
}

/// The longest common prefix is common, and no longer prefix is.
pub proof fn lemma_common_prefix(a: Seq<char>, b: Seq<char>)
    ensures
        common_prefix(a, b) <= a.len(),
        common_prefix(a, b) <= b.len(),
        a.take(common_prefix(a, b) as int) == b.take(common_prefix(a, b) as int),
        common_prefix(a, b) < a.len() && common_prefix(a, b) < b.len() ==> a[common_prefix(
            a,
            b,
        ) as int] != b[common_prefix(a, b) as int],
        forall|n: int|
            0 <= n <= a.len() && n <= b.len() && a.take(n) == b.take(n) ==> n <= common_prefix(
                a,
                b,
            ),
    decreases a.len(),
{
    if a.len() > 0 && b.len() > 0 && a[0] == b[0] {
        lemma_common_prefix(a.skip(1), b.skip(1));
        let m = common_prefix(a.skip(1), b.skip(1)) as int;
        assert(a.take(m + 1) == seq![a[0]] + a.skip(1).take(m));
        assert(b.take(m + 1) == seq![b[0]] + b.skip(1).take(m));
        if m + 1 < a.len() && m + 1 < b.len() {
            assert(a.skip(1)[m] == a[m + 1] && b.skip(1)[m] == b[m + 1]);
        }
    }
    assert forall|n: int|
        0 <= n <= a.len() && n <= b.len() && a.take(n) == b.take(n) implies n <= common_prefix(
        a,
        b,
    ) by {
        if n > 0 {
            assert(a.take(n)[0] == a[0] && b.take(n)[0] == b[0]);
            assert(a.skip(1).take(n - 1) == a.take(n).skip(1));
            assert(b.skip(1).take(n - 1) == b.take(n).skip(1));
        }
    }
}

/// The length of the longest common prefix of two character vectors.
pub fn common_prefix_len(a: &Vec<char>, b: &Vec<char>) -> (n: usize)
    ensures
        n == common_prefix(a@, b@),
        n <= a@.len(),
        n <= b@.len(),
{
    let mut n: usize = 0;
    while n < a.len() && n < b.len() && a[n] == b[n]
        invariant
            n <= a@.len(),
            n <= b@.len(),
            a@.take(n as int) == b@.take(n as int),
        decreases a@.len() - n,
    {
        assert(a@.take(n + 1) == a@.take(n as int).push(a@[n as int]));
        assert(b@.take(n + 1) == b@.take(n as int).push(b@[n as int]));
        n += 1;
    }
    proof {
        lemma_common_prefix_is(a@, b@, n as int);
    }
    n
}

/// Whether `part` stands in `s` at position `at`.
pub open spec fn part_at(s: Seq<char>, part: Seq<char>, at: int) -> bool {
    0 <= at && at + part.len() <= s.len() && s.subrange(at, at + part.len()) == part
}

/// Whether `part` stands somewhere in `s`.
pub open spec fn contains(s: Seq<char>, part: Seq<char>) -> bool {
    exists|at: int| part_at(s, part, at)
}

/// Whether `s` begins with `prefix`.
pub open spec fn starts_with(s: Seq<char>, prefix: Seq<char>) -> bool {
    part_at(s, prefix, 0)
}

/// Whether `s` ends with `suffix`.
pub open spec fn ends_with(s: Seq<char>, suffix: Seq<char>) -> bool {
    part_at(s, suffix, s.len() - suffix.len())
}

/// Whether `part` stands in `s` at position `at`.
fn stands_at(s: &Vec<char>, part: &Vec<char>, at: usize) -> (b: bool)
    ensures
        b == part_at(s@, part@, at as int),
{
    if at > s.len() || part.len() > s.len() - at {
        return false;
    }
    let mut i: usize = 0;
    while i < part.len()
        invariant
            i <= part@.len(),
            at + part.len() <= s.len(),
            forall|k: int| 0 <= k < i ==> s@[at + k] == part@[k],
        decreases part@.len() - i,
    {
        if s[at + i] != part[i] {
            assert(s@.subrange(at as int, at + part@.len())[i as int] != part@[i as int]);
            return false;
        }
        i += 1;
    }
    assert(s@.subrange(at as int, at + part@.len()) =~= part@);
    true
}

/// Whether `part` stands somewhere in `s`.
pub fn has_part(s: &str, part: &str) -> (b: bool)
    ensures
        b == contains(s@, part@),
{
    let cs = chars_of(s);
    let ps = chars_of(part);
    let mut at: usize = 0;
    loop
        invariant
            cs@ == s@,
            ps@ == part@,
            at <= cs@.len(),
            forall|k: int| 0 <= k < at ==> !part_at(s@, part@, k),
        decreases cs@.len() - at,
    {
        if stands_at(&cs, &ps, at) {
            return true;
        }
        if at == cs.len() {
            assert forall|k: int| !part_at(s@, part@, k) by {
                if k == at {
                }
            }
            return false;
        }
        at += 1;
    }
}

/// Whether `s` begins with `prefix`.
pub fn has_prefix(s: &str, prefix: &str) -> (b: bool)
    ensures
        b == starts_with(s@, prefix@),
{
    stands_at(&chars_of(s), &chars_of(prefix), 0)
}

/// Whether `s` ends with `suffix`.
pub fn has_suffix(s: &str, suffix: &str) -> (b: bool)
    ensures
        b == ends_with(s@, suffix@),
{
    let cs = chars_of(s);
    let xs = chars_of(suffix);
    xs.len() <= cs.len() && stands_at(&cs, &xs, cs.len() - xs.len())
}

/// Whether `a` comes before `b` in the order of their characters' code points,
/// the first difference deciding.
pub open spec fn precedes(a: Seq<char>, b: Seq<char>) -> bool {
    let n = common_prefix(a, b) as int;
    n < b.len() && (n == a.len() || a[n] < b[n])
}

/// Whether `a` comes before `b`.
pub fn comes_before(a: &str, b: &str) -> (r: bool)
    ensures
        r == precedes(a@, b@),
{
    let x = chars_of(a);
    let y = chars_of(b);
    let n: usize = common_prefix_len(&x, &y);
    proof {
        lemma_common_prefix(a@, b@);
    }
    n < y.len() && (n == x.len() || x[n] < y[n])
}

/// The order is total: of two different texts one comes before the other, and
/// not the other way round.
pub proof fn lemma_precedes_total(a: Seq<char>, b: Seq<char>)
    ensures
        a == b <==> !precedes(a, b) && !precedes(b, a),
        !(precedes(a, b) && precedes(b, a)),
{
    lemma_common_prefix(a, b);
    lemma_common_prefix(b, a);
    let n = common_prefix(a, b) as int;
    assert(common_prefix(b, a) == n) by {
        assert(b.take(n) == a.take(n));
        lemma_common_prefix_is(b, a, n);
    }
    if n == a.len() && n == b.len() {
        assert(a.take(n) =~= a);
        assert(b.take(n) =~= b);
    }
}

/// The order is transitive.
pub proof fn lemma_precedes_transitive(a: Seq<char>, b: Seq<char>, c: Seq<char>)
    requires
        precedes(a, b),
        precedes(b, c),
    ensures
        precedes(a, c),
{
    lemma_common_prefix(a, b);
    lemma_common_prefix(b, c);
    lemma_common_prefix(a, c);
    let m = common_prefix(a, b) as int;
    let n = common_prefix(b, c) as int;
    let k = if m < n {
        m
    } else {
        n
    };
    assert(a.take(k) =~= a.take(m).take(k));
    assert(b.take(k) =~= b.take(m).take(k));
    assert(b.take(k) =~= b.take(n).take(k));
    assert(c.take(k) =~= c.take(n).take(k));
    if m < n {
        assert(b.take(n)[m] == b[m]);
        assert(c.take(n)[m] == c[m]);
    } else if n < m {
        assert(a.take(m)[n] == a[n]);
        assert(b.take(m)[n] == b[n]);
    }
    lemma_common_prefix_is(a, c, k);
}

/// Whether two strings hold the same characters.
pub fn same_text(a: &str, b: &str) -> (r: bool)
    ensures
        r == (a@ == b@),
{
    let x = chars_of(a);
    let y = chars_of(b);
    let r = x.len() == y.len() && stands_at(&x, &y, 0);
    assert(x@.len() == y@.len() ==> x@.subrange(0, y@.len() as int) == x@);
    r
}

/// Whether a text is one of some texts.
pub fn has_text(v: &Vec<String>, s: &str) -> (b: bool)
    ensures
        b == views(v@).contains(s@),
{
    let mut i: usize = 0;
    while i < v.len()
        invariant
            i <= v@.len(),
            forall|k: int| 0 <= k < i ==> #[trigger] views(v@)[k] != s@,
        decreases v@.len() - i,
    {
        assert(views(v@)[i as int] == v@[i as int]@);
        if same_text(v[i].as_str(), s) {
            return true;
        }
        i += 1;
    }
    false
}

/// The decimal digit of a number below ten.
pub open spec fn digit(d: nat) -> char {
    if d == 0 {
        '0'
    } else if d == 1 {
        '1'
    } else if d == 2 {
        '2'
    } else if d == 3 {
        '3'
    } else if d == 4 {
        '4'
    } else if d == 5 {
        '5'
    } else if d == 6 {
        '6'
    } else if d == 7 {
        '7'
    } else if d == 8 {
        '8'
    } else {
        '9'
    }
}

/// A number in decimal notation.
pub open spec fn decimal(n: nat) -> Seq<char>
    decreases n,
{
    if n < 10 {
        seq![digit(n)]
    } else {
        decimal(n / 10).push(digit(n % 10))
    }
}

/// A signed number in decimal notation.
pub open spec fn signed_decimal(n: int) -> Seq<char> {
    if n < 0 {
        seq!['-'] + decimal((-n) as nat)
    } else {
        decimal(n as nat)
    }
}

/// A number in decimal notation.
pub fn decimal_string(n: u64) -> (s: String)
    ensures
        s@ == decimal(n as nat),
    decreases n,
{
    let mut s = if n < 10 {
        String::new()
    } else {
        decimal_string(n / 10)
    };
    let d: u64 = n % 10;
    let c = match d {
        0 => '0',
        1 => '1',
        2 => '2',
        3 => '3',
        4 => '4',
        5 => '5',
        6 => '6',
        7 => '7',
        8 => '8',
        _ => '9',
    };
    s.push(c);
    s
}

/// A signed number in decimal notation.
pub fn signed_decimal_string(n: i64) -> (s: String)
    ensures
        s@ == signed_decimal(n as int),
{
    if n >= 0 {
        return decimal_string(n as u64);
    }
    let mut s = String::new();
    s.push('-');
    let magnitude: u64 = (-(n + 1)) as u64 + 1;
    let digits = decimal_string(magnitude);
    s.append(digits.as_str());
    s
}

/// What `char::to_uppercase` yields for a character: its uppercase mapping.
pub uninterp spec fn uppercase(c: char) -> Seq<char>;

/// What `str::to_lowercase` returns for a text: its lowercase equivalent.
pub uninterp spec fn lowercase(s: Seq<char>) -> Seq<char>;

/// The uppercase of an ASCII character.
pub open spec fn ascii_upper(c: char) -> char {
    if 'a' <= c <= 'z' {
        (c as u32 - 32) as char
    } else {
        c
    }
}

/// The lowercase of an ASCII character.
pub open spec fn ascii_lower(c: char) -> char {
    if 'A' <= c <= 'Z' {
        (c as u32 + 32) as char
    } else {
        c
    }
}

/// Whether a character is ASCII.
pub open spec fn is_ascii_char(c: char) -> bool {
    (c as u32) < 0x80
}

/// The uppercase of a character: of an ASCII one the character that ASCII
/// gives, of another the word that `char::to_uppercase` yields, and of white
/// space the character itself.
pub open spec fn upper(c: char) -> Seq<char> {
    if is_ascii_char(c) {
        seq![ascii_upper(c)]
    } else if is_word(uppercase(c)) {
        uppercase(c)
    } else {
        seq![c]
    }
}

/// The uppercase of a character that is no white space holds none.
pub proof fn lemma_upper(c: char)
    ensures
        upper(c).len() > 0,
        !white_space(c) ==> is_word(upper(c)),
{
}

/// Whether all characters of a text are ASCII.
pub open spec fn is_ascii_text(s: Seq<char>) -> bool {
    forall|i: int| 0 <= i < s.len() ==> is_ascii_char(#[trigger] s[i])
}

/// The lowercase of a text: of an ASCII one that of its characters, of another
/// what `str::to_lowercase` returns.
pub open spec fn lowered(s: Seq<char>) -> Seq<char> {
    if is_ascii_text(s) {
        s.map_values(|c: char| ascii_lower(c))
    } else {
        lowercase(s)
    }
}

/// `char::to_uppercase`, which yields the uppercase mapping of a character as
/// one or more characters. The mapping itself is named `uppercase`; of an
/// ASCII character it is the one character that ASCII gives. White space has
/// no uppercase mapping and yields itself; the mapping of any other character
/// holds no white space, and starts with a character that is its own
/// uppercase, as Unicode's tables have it.
#[verifier::external_body]
pub(crate) fn upper_of(c: char) -> (s: String)
    ensures
        s@ == uppercase(c),
        is_ascii_char(c) ==> s@ == seq![ascii_upper(c)],
        white_space(c) ==> s@ == seq![c],
        !white_space(c) ==> is_word(s@),
        upper(s@[0]) == seq![s@[0]],
{
    c.to_uppercase().to_string()
}

/// `str::to_lowercase`, which returns the lowercase equivalent of a text. The
/// mapping itself is named `lowercase`; it maps an ASCII text character by
/// character, as ASCII does.
#[verifier::external_body]
pub(crate) fn lower_of(s: &str) -> (r: String)
    ensures
        r@ == lowercase(s@),
        is_ascii_text(s@) ==> r@ == s@.map_values(|c: char| ascii_lower(c)),
{
    s.to_lowercase()
}

/// The words of a text are what lies between its white space: any white-space
/// character separates, a stretch without one is one word, and nothing has no
/// words.
pub proof fn white_space_separates_words(a: Seq<char>, c: char, b: Seq<char>, w: Seq<char>)
    ensures
        white_space(c) ==> words(a + seq![c] + b) == words(a) + words(b),
        w.len() > 0 && (forall|i: int| 0 <= i < w.len() ==> !white_space(#[trigger] w[i]))
            ==> words(w) == seq![w],
        words(Seq::<char>::empty()) == Seq::<Seq<char>>::empty(),
{
    if white_space(c) {
        lemma_words_around(a, c, b);
    }
    if w.len() > 0 && (forall|i: int| 0 <= i < w.len() ==> !white_space(#[trigger] w[i])) {
        lemma_words_of_word(w);
    }
}

/// The words around a white-space character.
proof fn lemma_words_around(a: Seq<char>, c: char, b: Seq<char>)
    requires
        white_space(c),
    ensures
        words(a + seq![c] + b) == words(a) + words(b),
    decreases a.len(),
{
    let t = a + seq![c] + b;
    if a.len() == 0 {
        assert(t[0] == c);
        assert(t.skip(1) =~= b);
        assert(words(a) + words(b) =~= words(b));
    } else if white_space(a[0]) {
        assert(t[0] == a[0]);
        assert(t.skip(1) =~= a.skip(1) + seq![c] + b);
        lemma_words_around(a.skip(1), c, b);
    } else {
        lemma_word_len(a);
        let n = word_len(a) as int;
        assert forall|i: int| 0 <= i < n implies !white_space(#[trigger] t.take(n)[i]) by {
            assert(a.take(n)[i] == t.take(n)[i]);
        }
        if n < a.len() {
            assert(t[n] == a[n]);
        } else {
            assert(t[n] == c);
        }
        assert(t[0] == a[0]);
        lemma_word_len_is(t, n);
        assert(t.take(n) =~= a.take(n));
        assert(t.skip(n) =~= a.skip(n) + seq![c] + b);
        lemma_words_around(a.skip(n), c, b);
        assert(seq![a.take(n)] + (words(a.skip(n)) + words(b)) =~= (seq![a.take(n)] + words(
            a.skip(n),
        )) + words(b));
    }
}

/// Joining puts one space between each two neighbours, and nothing else.
pub proof fn joining_puts_one_space_between(
    w: Seq<char>,
    a: Seq<Seq<char>>,
    b: Seq<Seq<char>>,
)
    ensures
        join(Seq::<Seq<char>>::empty()) == Seq::<char>::empty(),
        join(seq![w]) == w,
        a.len() > 0 && b.len() > 0 ==> join(a + b) == join(a) + seq![' '] + join(b),
{
    if a.len() > 0 && b.len() > 0 {
        lemma_join_concat(a, b);
        assert(join(a).push(' ') + join(b) =~= join(a) + seq![' '] + join(b));
    }
}

/// Trimming leaves what lies between the white space at the two ends: from
/// the first character that is none to the last.
pub proof fn trimming_leaves_what_is_between(s: Seq<char>, from: int, to: int)
    requires
        0 <= from <= to <= s.len(),
        forall|i: int| 0 <= i < from ==> white_space(#[trigger] s[i]),
        forall|i: int| to <= i < s.len() ==> white_space(#[trigger] s[i]),
        from < to ==> !white_space(s[from]) && !white_space(s[to - 1]),
    ensures
        trim(s) == s.subrange(from, to),
        from == 0 ==> trim_end(s) == s.take(to),
{
    lemma_trim_start_is(s, if from < to { from } else { s.len() as int });
    if from < to {
        let t = s.skip(from);
        assert forall|i: int| to - from <= i < t.len() implies white_space(#[trigger] t[i]) by {
            assert(t[i] == s[i + from]);
        }
        lemma_trim_end_is(t, to - from);
        assert(t.take(to - from) =~= s.subrange(from, to));
    } else {
        assert forall|i: int| 0 <= i < s.len() implies white_space(#[trigger] s[i]) by {}
        assert(trim(s) =~= s.subrange(from, to));
    }
    if from == 0 {
        lemma_trim_end_is(s, to);
    }
}

/// White space at the start is passed over.
proof fn lemma_trim_start_is(s: Seq<char>, n: int)
    requires
        0 <= n <= s.len(),
        forall|i: int| 0 <= i < n ==> white_space(#[trigger] s[i]),
        n < s.len() ==> !white_space(s[n]),
    ensures
        trim_start(s) == s.skip(n),
    decreases n,
{
    if n > 0 {
        let t = s.skip(1);
        assert(white_space(s[0]));
        assert forall|i: int| 0 <= i < n - 1 implies white_space(#[trigger] t[i]) by {
            assert(t[i] == s[i + 1]);
        }
        lemma_trim_start_is(t, n - 1);
        assert(t.skip(n - 1) =~= s.skip(n));
    } else {
        assert(s.skip(0) =~= s);
    }
}

/// White space at the end is left out.
pub proof fn lemma_trim_end_is(s: Seq<char>, n: int)
    requires
        0 <= n <= s.len(),
        forall|i: int| n <= i < s.len() ==> white_space(#[trigger] s[i]),
        n > 0 ==> !white_space(s[n - 1]),
    ensures
        trim_end(s) == s.take(n),
    decreases s.len(),
{
    if n < s.len() {
        assert(white_space(s[s.len() - 1]));
        let t = s.drop_last();
        assert forall|i: int| n <= i < t.len() implies white_space(#[trigger] t[i]) by {
            assert(t[i] == s[i]);
        }
        lemma_trim_end_is(t, n);
        assert(t.take(n) =~= s.take(n));
    } else {
        assert(s.take(n) =~= s);
    }
}

/// A text is blank, and trims to nothing, exactly when all of it is white
/// space.
pub proof fn blank_is_all_white_space(s: Seq<char>)
    ensures
        trim(s).len() == 0 <==> forall|i: int| 0 <= i < s.len() ==> white_space(#[trigger] s[i]),
        trim_end(s).len() == 0 <==> forall|i: int|
            0 <= i < s.len() ==> white_space(#[trigger] s[i]),
    decreases s.len(),
{
    if forall|i: int| 0 <= i < s.len() ==> white_space(#[trigger] s[i]) {
        trimming_leaves_what_is_between(s, 0, 0);
    } else {
        let k = choose|k: int| 0 <= k < s.len() && !white_space(#[trigger] s[k]);
        lemma_trim_keeps(s, k);
    }
}

/// A character that is no white space survives trimming.
proof fn lemma_trim_keeps(s: Seq<char>, k: int)
    requires
        0 <= k < s.len(),
        !white_space(s[k]),
    ensures
        trim_end(s).len() > 0,
        trim(s).len() > 0,
    decreases s.len(),
{
    if white_space(s[0]) {
        lemma_trim_keeps(s.skip(1), k - 1);
    }
    lemma_trim_end_keeps(s, k);
    if !white_space(s[0]) {
        assert(trim_start(s) == s);
    }
}

/// A character that is no white space survives trimming at the end.
proof fn lemma_trim_end_keeps(s: Seq<char>, k: int)
    requires
        0 <= k < s.len(),
        !white_space(s[k]),
    ensures
        trim_end(s).len() > 0,
    decreases s.len(),
{
    if white_space(s.last()) {
        lemma_trim_end_keeps(s.drop_last(), k);
    }
}

/// What a text begins with and ends with is what it can be split at.
pub proof fn ends_are_what_a_text_splits_at(s: Seq<char>, p: Seq<char>, a: Seq<char>, b: Seq<char>)
    ensures
        starts_with(p + b, p),
        ends_with(a + p, p),
        starts_with(s, p) ==> s == p + s.skip(p.len() as int),
        ends_with(s, p) ==> s == s.take(s.len() - p.len()) + p,
{
    assert((p + b).subrange(0, p.len() as int) =~= p);
    assert((a + p).subrange(a.len() as int, (a + p).len() as int) =~= p);
    if starts_with(s, p) {
        assert(s =~= s.subrange(0, p.len() as int) + s.skip(p.len() as int));
    }
    if ends_with(s, p) {
        let n = s.len() - p.len();
        assert(s =~= s.take(n) + s.subrange(n, n + p.len()));
    }
}

/// A text contains whatever stands between two parts of it, and nothing else.
pub proof fn contains_what_stands_between(a: Seq<char>, p: Seq<char>, b: Seq<char>)
    ensures
        contains(a + p + b, p),
{
    let t = a + p + b;
    assert(t.subrange(a.len() as int, (a.len() + p.len()) as int) =~= p);
    assert(part_at(t, p, a.len() as int));
}

/// Where a text contains another, it can be split around it.
pub proof fn contained_part_stands_somewhere(s: Seq<char>, p: Seq<char>) -> (at: int)
    requires
        contains(s, p),
    ensures
        0 <= at,
        at + p.len() <= s.len(),
        s == s.take(at) + p + s.skip(at + p.len()),
{
    let at = choose|at: int| part_at(s, p, at);
    assert(s =~= s.take(at) + s.subrange(at, at + p.len()) + s.skip(at + p.len()));
    at
}

/// The first difference decides which of two texts comes first, and a text
/// comes before one that it starts.
pub proof fn first_difference_decides(p: Seq<char>, x: char, y: char, s: Seq<char>, t: Seq<char>)
    requires
        x < y,
    ensures
        precedes(p + seq![x] + s, p + seq![y] + t),
        !precedes(p + seq![y] + t, p + seq![x] + s),
        precedes(p, p + seq![x] + s),
        !precedes(p + seq![x] + s, p),
        !precedes(p, p),
{
    let n = p.len() as int;
    let a = p + seq![x] + s;
    let b = p + seq![y] + t;
    assert(a.take(n) =~= p);
    assert(b.take(n) =~= p);
    assert(p.take(n) =~= p);
    lemma_common_prefix_is(a, b, n);
    lemma_common_prefix_is(b, a, n);
    lemma_common_prefix_is(p, a, n);
    lemma_common_prefix_is(a, p, n);
    lemma_common_prefix_is(p, p, n);
}

/// The value of a decimal digit.
pub open spec fn digit_value(c: char) -> int {
    c as u32 - '0' as u32
}

/// The number that some digits stand for.
pub open spec fn number_of(s: Seq<char>) -> int
    decreases s.len(),
{
    if s.len() == 0 {
        0
    } else {
        10 * number_of(s.drop_last()) + digit_value(s.last())
    }
}

/// The decimal notation of a number is digits that stand for it, without a
/// zero in front unless it is zero.
pub proof fn decimal_stands_for_its_number(n: nat)
    ensures
        decimal(n).len() > 0,
        forall|i: int| 0 <= i < decimal(n).len() ==> '0' <= (#[trigger] decimal(n)[i]) <= '9',
        number_of(decimal(n)) == n,
        n > 0 ==> decimal(n)[0] != '0',
        signed_decimal(n as int) == decimal(n),
        n > 0 ==> signed_decimal(-(n as int)) == seq!['-'] + decimal(n),
    decreases n,
{
    reveal_with_fuel(number_of, 2);
    if n >= 10 {
        decimal_stands_for_its_number(n / 10);
        let init = decimal(n / 10);
        let d = digit(n % 10);
        assert(init.push(d).drop_last() =~= init);
        assert forall|i: int| 0 <= i < decimal(n).len() implies '0' <= (
        #[trigger] decimal(n)[i]) <= '9' by {
            if i < init.len() {
                assert(init[i] == decimal(n)[i]);
            }
        }
        assert(decimal(n)[0] == init[0]);
    } else {
        assert(seq![digit(n)].drop_last() =~= Seq::<char>::empty());
    }
}

/// Of the ASCII characters the letters change case, and nothing else changes.
pub proof fn ascii_letters_change_case(c: char)
    requires
        (c as u32) < 128,
    ensures
        upper(c).len() == 1,
        'a' <= c <= 'z' ==> upper(c)[0] as u32 == c as u32 - 32,
        !('a' <= c <= 'z') ==> upper(c)[0] == c,
        lowered(seq![c]).len() == 1,
        'A' <= c <= 'Z' ==> lowered(seq![c])[0] as u32 == c as u32 + 32,
        !('A' <= c <= 'Z') ==> lowered(seq![c])[0] == c,
{
}

/// An ASCII text changes case character by character.
pub proof fn ascii_text_is_lowered_by_character(s: Seq<char>, i: int)
    requires
        forall|k: int| 0 <= k < s.len() ==> (#[trigger] s[k] as u32) < 128,
        0 <= i < s.len(),
    ensures
        lowered(s).len() == s.len(),
        seq![lowered(s)[i]] == lowered(seq![s[i]]),
{
    assert(is_ascii_text(s));
    assert((s[i] as u32) < 128);
    assert(is_ascii_text(seq![s[i]]));
}

/// A single-spaced text that is not empty starts and ends with a character of
/// a word.
pub proof fn lemma_single_spaced_ends_in_a_word(s: Seq<char>)
    requires
        single_spaced(s),
        s.len() > 0,
    ensures
        !white_space(s[0]),
        !white_space(s.last()),
{
    let ws = words(s);
    lemma_words_are_words(s);
    assert(ws.len() > 0);
    assert(is_word(ws[0]));
    assert(is_word(ws[ws.len() - 1]));
    lemma_join_ends(ws);
}

/// Joined words start with the first word and end with the last.
proof fn lemma_join_ends(ws: Seq<Seq<char>>)
    requires
        ws.len() > 0,
        ws[0].len() > 0,
        ws.last().len() > 0,
    ensures
        join(ws).len() > 0,
        join(ws)[0] == ws[0][0],
        join(ws).last() == ws.last().last(),
{
    if ws.len() > 1 {
        let head = ws.take(1);
        let tail = ws.skip(1);
        assert(ws =~= head + tail);
        lemma_join_concat(head, tail);
        assert(join(head) == ws[0]);
    }
}

/// Beyond ASCII the case of a character is what Unicode says it is: the
/// uppercase of one that is no white space is its uppercase mapping, and a text
/// with any such character is lowered as a whole.
pub proof fn other_letters_change_case_by_unicode(c: char, s: Seq<char>, i: int)
    ensures
        c as u32 >= 128 && is_word(uppercase(c)) ==> upper(c) == uppercase(c),
        0 <= i < s.len() && s[i] as u32 >= 128 ==> lowered(s) == lowercase(s),
{
}

} // verus!
