//! Text as sequences of characters.
//!
//! Every function here works on `&str` or on slices of `char` and states its
//! result over the sequence of characters of its argument.
use vstd::prelude::*;
use vstd::slice::slice_subrange;
use vstd::string::*;

verus! {

/// `String::push` appends one character.
pub assume_specification[ String::push ](s: &mut String, c: char)
    ensures
        final(s)@ == old(s)@.push(c),
;

/// Comparing two string slices with `==` compares their characters.
pub assume_specification[ <str as PartialEq<str>>::eq ](a: &str, b: &str) -> (r: bool)
    ensures
        r == (a@ == b@),
;

/// The characters of `s`.
pub fn chars_of(s: &str) -> (r: Vec<char>)
    ensures
        r@ == s@,
{
    let mut r: Vec<char> = Vec::new();
    for c in it: s.chars()
        invariant
            r@ == it.seq().take(it.index()),
            it.seq() == s@,
    {
        r.push(c);
    }
    r
}

/// The string made of `cs`.
pub fn string_of(cs: &[char]) -> (r: String)
    ensures
        r@ == cs@,
{
    let mut r = String::new();
    for i in 0..cs.len()
        invariant
            r@ == cs@.take(i as int),
    {
        r.push(cs[i]);
        assert(cs@.take(i + 1) == cs@.take(i as int).push(cs@[i as int]));
    }
    assert(cs@.take(cs@.len() as int) == cs@);
    r
}

/// The string made of the characters `cs[from..to]`.
pub fn string_between(cs: &[char], from: usize, to: usize) -> (r: String)
    requires
        from <= to <= cs@.len(),
    ensures
        r@ == cs@.subrange(from as int, to as int),
{
    string_of(slice_subrange(cs, from, to))
}

/// `a` followed by `b`.
pub fn cat2(a: &str, b: &str) -> (r: String)
    ensures
        r@ == a@ + b@,
{
    let mut r = a.to_owned();
    r.append(b);
    r
}

/// `a`, `b` and `c`, one after the other.
pub fn cat3(a: &str, b: &str, c: &str) -> (r: String)
    ensures
        r@ == a@ + b@ + c@,
{
    let mut r = cat2(a, b);
    r.append(c);
    r
}

/// `a`, `b`, `c` and `d`, one after the other.
pub fn cat4(a: &str, b: &str, c: &str, d: &str) -> (r: String)
    ensures
        r@ == a@ + b@ + c@ + d@,
{
    let mut r = cat3(a, b, c);
    r.append(d);
    r
}

/// `a`, `b`, `c`, `d` and `e`, one after the other.
pub fn cat5(a: &str, b: &str, c: &str, d: &str, e: &str) -> (r: String)
    ensures
        r@ == a@ + b@ + c@ + d@ + e@,
{
    let mut r = cat4(a, b, c, d);
    r.append(e);
    r
}

/// A copy of a list of strings.
pub fn copy_strings(v: &[String]) -> (r: Vec<String>)
    ensures
        r.deep_view() == v.deep_view(),
{
    let mut r: Vec<String> = Vec::new();
    for i in 0..v.len()
        invariant
            r.deep_view() == v.deep_view().take(i as int),
    {
        let ghost before = r.deep_view();
        r.push(v[i].clone());
        assert(r.deep_view() =~= before.push(v@[i as int]@));
        assert(r.deep_view() =~= v.deep_view().take(i + 1));
    }
    assert(v.deep_view().take(v.len() as int) =~= v.deep_view());
    r
}

// ---------------------------------------------------------------------------
// White space

/// Whether `c` has the Unicode property White_Space.
pub open spec fn white(c: char) -> bool {
    ||| '\u{9}' <= c <= '\u{d}'
    ||| c == ' '
    ||| c == '\u{85}'
    ||| c == '\u{a0}'
    ||| c == '\u{1680}'
    ||| '\u{2000}' <= c <= '\u{200a}'
    ||| c == '\u{2028}'
    ||| c == '\u{2029}'
    ||| c == '\u{202f}'
    ||| c == '\u{205f}'
    ||| c == '\u{3000}'
}

/// Whether `c` has the Unicode property White_Space.
pub fn is_white(c: char) -> (r: bool)
    ensures
        r == white(c),
{
    ('\u{9}' <= c && c <= '\u{d}') || c == ' ' || c == '\u{85}' || c == '\u{a0}' || c == '\u{1680}'
        || ('\u{2000}' <= c && c <= '\u{200a}') || c == '\u{2028}' || c == '\u{2029}' || c
        == '\u{202f}' || c == '\u{205f}' || c == '\u{3000}'
}

/// `s` without its trailing white space.
pub open spec fn trim_end(s: Seq<char>) -> Seq<char>
    decreases s.len(),
{
    if s.len() > 0 && white(s.last()) {
        trim_end(s.drop_last())
    } else {
        s
    }
}

/// `s` without its leading white space.
pub open spec fn trim_start(s: Seq<char>) -> Seq<char>
    decreases s.len(),
{
    if s.len() > 0 && white(s[0]) {
        trim_start(s.skip(1))
    } else {
        s
    }
}

/// `s` without the white space around it.
pub open spec fn trim(s: Seq<char>) -> Seq<char> {
    trim_end(trim_start(s))
}

/// What trimming the end takes off is white space, and all of it: what is left is a
/// prefix that ends with something else, or nothing.
pub proof fn law_trimmed_end(s: Seq<char>)
    ensures
        trim_end(s).is_prefix_of(s),
        forall|i: int| trim_end(s).len() <= i < s.len() ==> white(#[trigger] s[i]),
        trim_end(s).len() > 0 ==> !white(trim_end(s).last()),
    decreases s.len(),
{
    if s.len() > 0 && white(s.last()) {
        let rest = s.drop_last();
        law_trimmed_end(rest);
        assert forall|i: int| trim_end(s).len() <= i < s.len() implies white(#[trigger] s[i]) by {
            if i < rest.len() {
                assert(rest[i] == s[i]);
            }
        }
        assert(s.subrange(0, trim_end(s).len() as int) =~= rest.subrange(
            0,
            trim_end(s).len() as int,
        ));
    } else {
        assert(s.subrange(0, s.len() as int) =~= s);
    }
}

/// What trimming takes off is white space on both sides: what is left starts and
/// ends with something else.
pub proof fn law_trimmed(s: Seq<char>)
    ensures
        exists|i: int|
            0 <= i && i + trim(s).len() <= s.len() && trim(s) == #[trigger] s.subrange(
                i,
                i + trim(s).len(),
            ) && (forall|j: int| #![trigger s[j]]
                0 <= j < s.len() && !(i <= j < i + trim(s).len()) ==> white(s[j])),
        trim(s).len() > 0 ==> !white(trim(s)[0]) && !white(trim(s).last()),
{
    lemma_trim_start(s);
    let t = trim_start(s);
    let i = s.len() - t.len();
    law_trimmed_end(t);
    let n = trim(s).len();
    assert(trim(s) =~= s.subrange(i, i + n));
    assert forall|j: int| #![trigger s[j]] 0 <= j < s.len() && !(i <= j < i + n) implies white(
        s[j],
    ) by {
        if j >= i {
            assert(t[j - i] == s[j]);
        }
    }
}

/// A text with nothing white at its ends stays as it is, and a line feed after it is
/// taken off.
pub proof fn law_trimmed_line(s: Seq<char>)
    requires
        s.len() > 0,
        !white(s[0]),
        !white(s.last()),
    ensures
        trim(s) == s,
        trim_end(s) == s,
        trim(s + seq!['\n']) == s,
        trim_end(s + seq!['\n']) == s,
{
    let t = s + seq!['\n'];
    assert(t[0] == s[0]);
    assert(t.drop_last() =~= s);
    assert(trim_start(t) == t);
}

proof fn lemma_trim_start(s: Seq<char>)
    ensures
        trim_start(s).len() <= s.len(),
        trim_start(s) == s.skip(s.len() - trim_start(s).len()),
        forall|j: int| #![trigger s[j]]
            0 <= j < s.len() - trim_start(s).len() ==> white(s[j]),
        trim_start(s).len() > 0 ==> !white(trim_start(s)[0]),
    decreases s.len(),
{
    if s.len() > 0 && white(s[0]) {
        let rest = s.skip(1);
        lemma_trim_start(rest);
        let n = trim_start(s).len();
        assert(rest.skip(rest.len() - n) =~= s.skip(s.len() - n));
        assert forall|j: int| #![trigger s[j]] 0 <= j < s.len() - n implies white(s[j]) by {
            if j > 0 {
                assert(rest[j - 1] == s[j]);
            }
        }
    } else {
        assert(s.skip(0) =~= s);
    }
}

/// The end of `cs` without its trailing white space.
fn end_of_trimmed(cs: &[char]) -> (n: usize)
    ensures
        n <= cs@.len(),
        trim_end(cs@) == cs@.take(n as int),
{
    let mut n: usize = cs.len();
    assert(cs@.take(n as int) == cs@);
    while n > 0 && is_white(cs[n - 1])
        invariant
            n <= cs@.len(),
            trim_end(cs@) == trim_end(cs@.take(n as int)),
        decreases n,
    {
        assert(cs@.take(n as int).drop_last() == cs@.take(n - 1));
        n = n - 1;
    }
    n
}

/// `s` without its trailing white space.
pub fn trimmed_end(s: &str) -> (r: String)
    ensures
        r@ == trim_end(s@),
{
    let cs = chars_of(s);
    let n = end_of_trimmed(&cs);
    string_between(&cs, 0, n)
}

/// `s` without the white space around it.
pub fn trimmed(s: &str) -> (r: String)
    ensures
        r@ == trim(s@),
{
    let cs = chars_of(s);
    let mut i: usize = 0;
    assert(cs@.skip(0) == cs@);
    while i < cs.len() && is_white(cs[i])
        invariant
            i <= cs@.len(),
            trim_start(cs@) == trim_start(cs@.skip(i as int)),
        decreases cs@.len() - i,
    {
        assert(cs@.skip(i as int).skip(1) == cs@.skip(i + 1));
        i = i + 1;
    }
    let tail = slice_subrange(&cs, i, cs.len());
    assert(tail@ == cs@.skip(i as int));
    let n = end_of_trimmed(tail);
    string_between(tail, 0, n)
}

/// The length of the longest prefix of `s` that holds no white space.
pub open spec fn word_len(s: Seq<char>) -> nat
    decreases s.len(),
{
    if s.len() == 0 || white(s[0]) {
        0
    } else {
        1 + word_len(s.skip(1))
    }
}

/// The maximal runs of `s` without white space, in order.
pub open spec fn words(s: Seq<char>) -> Seq<Seq<char>>
    decreases s.len(),
{
    if s.len() == 0 {
        seq![]
    } else if white(s[0]) {
        words(s.skip(1))
    } else {
        let n = word_len(s) as int;
        proof {
            lemma_word_len_bound(s);
        }
        seq![s.take(n)] + words(s.skip(n))
    }
}

pub proof fn lemma_word_len_bound(s: Seq<char>)
    ensures
        word_len(s) <= s.len(),
    decreases s.len(),
{
    if s.len() > 0 && !white(s[0]) {
        lemma_word_len_bound(s.skip(1));
    }
}

proof fn lemma_word_len(s: Seq<char>, n: int)
    requires
        0 <= n <= s.len(),
        forall|j: int| 0 <= j < n ==> !white(#[trigger] s[j]),
        n == s.len() || white(s[n]),
    ensures
        word_len(s) == n,
    decreases s.len(),
{
    if n > 0 {
        let t = s.skip(1);
        assert forall|j: int| 0 <= j < n - 1 implies !white(#[trigger] t[j]) by {
            assert(t[j] == s[j + 1]);
        }
        lemma_word_len(t, n - 1);
    }
}

/// The words of a text that starts with a word and goes on with white space are that
/// word and the words after it.
pub proof fn law_first_word(word: Seq<char>, c: char, rest: Seq<char>)
    requires
        word.len() > 0,
        forall|j: int| 0 <= j < word.len() ==> !white(#[trigger] word[j]),
        white(c),
    ensures
        words(word + seq![c] + rest) == seq![word] + words(rest),
        words(word) == seq![word],
        words(seq![c] + rest) == words(rest),
{
    let s = word + seq![c] + rest;
    let n = word.len() as int;
    assert forall|j: int| 0 <= j < n implies !white(#[trigger] s[j]) by {
        assert(s[j] == word[j]);
    }
    assert(s[n] == c);
    lemma_word_len(s, n);
    assert(s.take(n) =~= word);
    assert(s[0] == word[0]);
    let after = seq![c] + rest;
    assert(s.skip(n) =~= after);
    assert(after.skip(1) =~= rest);
    assert(words(after) == words(rest));
    lemma_word_len(word, n);
    assert(word.take(n) =~= word);
    assert(word.skip(n) =~= seq![]);
    assert(words(word.skip(n)) =~= seq![]);
    assert(words(word) =~= seq![word]);
}

/// The words of `s`.
pub fn split_words(s: &str) -> (r: Vec<String>)
    ensures
        r.deep_view() == words(s@),
{
    let cs = chars_of(s);
    let mut r: Vec<String> = Vec::new();
    let mut i: usize = 0;
    assert(cs@.skip(0) == cs@);
    assert(r.deep_view() + words(cs@) =~= words(cs@));
    while i < cs.len()
        invariant
            i <= cs@.len(),
            words(cs@) == r.deep_view() + words(cs@.skip(i as int)),
        decreases cs@.len() - i,
    {
        let ghost rest = cs@.skip(i as int);
        if is_white(cs[i]) {
            assert(rest.skip(1) == cs@.skip(i + 1));
            i = i + 1;
        } else {
            let start = i;
            while i < cs.len() && !is_white(cs[i])
                invariant
                    start <= i <= cs@.len(),
                    forall|j: int| start <= j < i ==> !white(#[trigger] cs@[j]),
                decreases cs@.len() - i,
            {
                i = i + 1;
            }
            let ghost before = r.deep_view();
            r.push(string_between(&cs, start, i));
            proof {
                let n = i - start;
                assert forall|j: int| 0 <= j < n implies !white(#[trigger] rest[j]) by {
                    assert(rest[j] == cs@[start + j]);
                }
                lemma_word_len(rest, n);
                assert(rest.take(n) == cs@.subrange(start as int, i as int));
                assert(rest.skip(n) == cs@.skip(i as int));
                assert(words(rest) == seq![rest.take(n)] + words(rest.skip(n)));
                assert(r.deep_view() =~= before.push(rest.take(n)));
                assert(before + (seq![rest.take(n)] + words(rest.skip(n))) =~= r.deep_view()
                    + words(cs@.skip(i as int)));
            }
        }
    }
    assert(cs@.skip(i as int).len() == 0);
    assert(r.deep_view() + words(cs@.skip(i as int)) =~= r.deep_view());
    r
}

// ---------------------------------------------------------------------------
// Searching

/// Whether `p` occurs in `s` at index `i`.
pub open spec fn occurs_at(s: Seq<char>, p: Seq<char>, i: int) -> bool {
    &&& 0 <= i
    &&& i + p.len() <= s.len()
    &&& s.subrange(i, i + p.len()) == p
}

/// The first index from `from` on at which `p` occurs in `s`.
pub open spec fn find(s: Seq<char>, p: Seq<char>, from: int) -> Option<int>
    decreases s.len() - from,
{
    if from < 0 || from + p.len() > s.len() {
        None
    } else if occurs_at(s, p, from) {
        Some(from)
    } else if from + 1 > s.len() {
        None
    } else {
        find(s, p, from + 1)
    }
}

/// The last index up to `upto` at which `p` occurs in `s`.
pub open spec fn rfind(s: Seq<char>, p: Seq<char>, upto: int) -> Option<int>
    decreases upto + 1,
{
    if upto < 0 {
        None
    } else if occurs_at(s, p, upto) {
        Some(upto)
    } else {
        rfind(s, p, upto - 1)
    }
}

/// Whether `p` occurs anywhere in `s`.
pub open spec fn contains(s: Seq<char>, p: Seq<char>) -> bool {
    exists|i: int| occurs_at(s, p, i)
}

/// `find` gives the least index from `from` on at which `p` occurs, and
/// nothing where there is none.
pub proof fn lemma_find(s: Seq<char>, p: Seq<char>, from: int)
    requires
        0 <= from,
    ensures
        match find(s, p, from) {
            Some(i) => from <= i && occurs_at(s, p, i) && forall|j: int|
                from <= j < i ==> !occurs_at(s, p, j),
            None => forall|j: int| from <= j ==> !occurs_at(s, p, j),
        },
    decreases s.len() - from,
{
    if from + p.len() <= s.len() && !occurs_at(s, p, from) && from + 1 <= s.len() {
        lemma_find(s, p, from + 1);
    }
}

/// Whether `p` occurs in `cs` at index `i`.
pub fn is_at(cs: &[char], p: &str, i: usize) -> (r: bool)
    requires
        i <= cs@.len(),
    ensures
        r == occurs_at(cs@, p@, i as int),
{
    let ps = chars_of(p);
    if ps.len() > cs.len() - i {
        return false;
    }
    for j in 0..ps.len()
        invariant
            i + ps@.len() <= cs@.len() <= usize::MAX,
            ps@ == p@,
            forall|k: int| 0 <= k < j ==> cs@[i + k] == #[trigger] p@[k],
    {
        if cs[i + j] != ps[j] {
            assert(cs@.subrange(i as int, i + p@.len())[j as int] != p@[j as int]);
            return false;
        }
    }
    assert(cs@.subrange(i as int, i + p@.len()) =~= p@);
    true
}

/// The first index from `from` on at which `p` occurs in `cs`.
pub fn find_in(cs: &[char], p: &str, from: usize) -> (r: Option<usize>)
    requires
        from <= cs@.len(),
    ensures
        match r {
            Some(i) => find(cs@, p@, from as int) == Some(i as int),
            None => find(cs@, p@, from as int) is None,
        },
        r matches Some(i) ==> i + p@.len() <= cs@.len(),
{
    let mut i: usize = from;
    while i <= cs.len()
        invariant
            from <= i <= cs@.len() + 1,
            i <= cs@.len() ==> find(cs@, p@, from as int) == find(cs@, p@, i as int),
            i > cs@.len() ==> find(cs@, p@, from as int) is None,
        decreases cs@.len() + 1 - i,
    {
        if is_at(cs, p, i) {
            return Some(i);
        }
        if i == cs.len() {
            return None;
        }
        i = i + 1;
    }
    None
}

/// The last index at which `p` occurs in `cs`.
pub fn rfind_in(cs: &[char], p: &str) -> (r: Option<usize>)
    ensures
        match r {
            Some(i) => rfind(cs@, p@, cs@.len() as int) == Some(i as int),
            None => rfind(cs@, p@, cs@.len() as int) is None,
        },
        r matches Some(i) ==> i + p@.len() <= cs@.len(),
{
    let mut i: usize = cs.len();
    loop
        invariant
            i <= cs@.len(),
            rfind(cs@, p@, cs@.len() as int) == rfind(cs@, p@, i as int),
        decreases i,
    {
        if is_at(cs, p, i) {
            return Some(i);
        }
        if i == 0 {
            assert(rfind(cs@, p@, -1) is None);
            return None;
        }
        i = i - 1;
    }
}

/// Whether `p` occurs in `s`.
pub fn holds(s: &str, p: &str) -> (r: bool)
    ensures
        r == contains(s@, p@),
{
    let cs = chars_of(s);
    let found = find_in(&cs, p, 0);
    proof {
        lemma_find(s@, p@, 0);
    }
    found.is_some()
}

/// Whether `s` starts with `p`.
pub fn starts_with(s: &str, p: &str) -> (r: bool)
    ensures
        r == p@.is_prefix_of(s@),
{
    let cs = chars_of(s);
    has_prefix(&cs, p)
}

/// Whether `cs` starts with `p`.
pub fn has_prefix(cs: &[char], p: &str) -> (r: bool)
    ensures
        r == p@.is_prefix_of(cs@),
{
    is_at(cs, p, 0)
}

/// Whether `s` ends with `p`.
pub fn ends_with(s: &str, p: &str) -> (r: bool)
    ensures
        r == p@.is_suffix_of(s@),
{
    let cs = chars_of(s);
    let n: usize = p.unicode_len();
    if n > cs.len() {
        return false;
    }
    is_at(&cs, p, cs.len() - n)
}

/// What follows the prefix `p` of `s`, where `s` starts with `p`.
pub open spec fn strip_prefix(s: Seq<char>, p: Seq<char>) -> Option<Seq<char>> {
    if p.is_prefix_of(s) {
        Some(s.skip(p.len() as int))
    } else {
        None
    }
}

/// What follows the prefix `p` of `s`, where `s` starts with `p`.
pub fn without_prefix(s: &str, p: &str) -> (r: Option<String>)
    ensures
        r.deep_view() == strip_prefix(s@, p@),
{
    let cs = chars_of(s);
    if has_prefix(&cs, p) {
        let n: usize = p.unicode_len();
        assert(cs@.subrange(n as int, cs@.len() as int) =~= s@.skip(p@.len() as int));
        Some(string_between(&cs, n, cs.len()))
    } else {
        None
    }
}

// ---------------------------------------------------------------------------
// Lines

/// The index of the first `c` in `s`, or the length of `s`.
pub open spec fn find_char(s: Seq<char>, c: char) -> nat
    decreases s.len(),
{
    if s.len() == 0 || s[0] == c {
        0
    } else {
        1 + find_char(s.skip(1), c)
    }
}

pub proof fn lemma_find_char_bound(s: Seq<char>, c: char)
    ensures
        find_char(s, c) <= s.len(),
        find_char(s, c) < s.len() ==> s[find_char(s, c) as int] == c,
        forall|j: int| 0 <= j < find_char(s, c) ==> s[j] != c,
    decreases s.len(),
{
    if s.len() > 0 && s[0] != c {
        lemma_find_char_bound(s.skip(1), c);
        assert forall|j: int| 0 <= j < find_char(s, c) implies s[j] != c by {
            if j > 0 {
                assert(s[j] == s.skip(1)[j - 1]);
            }
        }
    }
}

pub proof fn lemma_find_char(s: Seq<char>, c: char, n: int)
    requires
        0 <= n <= s.len(),
        forall|j: int| 0 <= j < n ==> #[trigger] s[j] != c,
        n == s.len() || s[n] == c,
    ensures
        find_char(s, c) == n,
{
    lemma_find_char_bound(s, c);
    let m = find_char(s, c) as int;
    if m < n {
        assert(s[m] != c);
    } else if n < m {
        assert(s[n] != c);
    }
}

/// A line without the carriage return before its line feed.
pub open spec fn drop_cr(s: Seq<char>) -> Seq<char> {
    if s.len() > 0 && s.last() == '\r' {
        s.drop_last()
    } else {
        s
    }
}

/// The lines of `s`. A line ends with a line feed, or with a carriage return
/// and a line feed, and the last one may end with the text.
pub open spec fn text_lines(s: Seq<char>) -> Seq<Seq<char>>
    decreases s.len(),
{
    if s.len() == 0 {
        seq![]
    } else {
        let n = find_char(s, '\n');
        if n >= s.len() {
            seq![s]
        } else {
            seq![drop_cr(s.take(n as int))] + text_lines(s.skip(n as int + 1))
        }
    }
}

/// The lines of a text that ends with a line feed and those of the text after
/// it are the lines of both.
pub proof fn lemma_lines_two(a: Seq<char>, b: Seq<char>)
    requires
        a.len() == 0 || a.last() == '\n',
    ensures
        text_lines(a + b) == text_lines(a) + text_lines(b),
    decreases a.len(),
{
    if a.len() == 0 {
        assert(a + b =~= b);
        assert(text_lines(a) + text_lines(b) =~= text_lines(b));
    } else {
        let n = find_char(a, '\n') as int;
        lemma_find_char_bound(a, '\n');
        if n == a.len() {
            assert(a[a.len() - 1] != '\n');
        }
        assert forall|j: int| 0 <= j < n implies #[trigger] (a + b)[j] != '\n' by {
            assert((a + b)[j] == a[j]);
        }
        lemma_find_char(a + b, '\n', n);
        let rest = a.skip(n + 1);
        if rest.len() > 0 {
            assert(rest.last() == a.last());
        }
        lemma_lines_two(rest, b);
        assert((a + b).take(n) =~= a.take(n));
        assert((a + b).skip(n + 1) =~= rest + b);
        assert(text_lines(a + b) =~= text_lines(a) + text_lines(b));
    }
}

/// A line feed ends a line, and the text after it has the lines that follow.
pub proof fn law_first_line(line: Seq<char>, rest: Seq<char>)
    requires
        forall|j: int| 0 <= j < line.len() ==> #[trigger] line[j] != '\n',
        line.len() > 0 ==> line.last() != '\r',
    ensures
        text_lines(line + seq!['\n'] + rest) == seq![line] + text_lines(rest),
        text_lines(line + seq!['\r', '\n'] + rest) == seq![line] + text_lines(rest),
        line.len() > 0 ==> text_lines(line) == seq![line],
{
    let s = line + seq!['\n'] + rest;
    let n = line.len() as int;
    assert forall|j: int| 0 <= j < n implies #[trigger] s[j] != '\n' by {
        assert(s[j] == line[j]);
    }
    assert(s[n] == '\n');
    lemma_find_char(s, '\n', n);
    assert(s.take(n) =~= line);
    assert(s.skip(n + 1) =~= rest);
    let t = line + seq!['\r', '\n'] + rest;
    assert forall|j: int| 0 <= j < n + 1 implies #[trigger] t[j] != '\n' by {
        if j < n {
            assert(t[j] == line[j]);
        } else {
            assert(t[j] == '\r');
        }
    }
    assert(t[n + 1] == '\n');
    lemma_find_char(t, '\n', n + 1);
    assert(t.take(n + 1).drop_last() =~= line);
    assert(t.take(n + 1).last() == '\r');
    assert(t.skip(n + 2) =~= rest);
    if line.len() > 0 {
        lemma_find_char(line, '\n', n);
    }
}

/// The lines of `s`.
pub fn lines(s: &str) -> (r: Vec<String>)
    ensures
        r.deep_view() == text_lines(s@),
{
    let cs = chars_of(s);
    let mut r: Vec<String> = Vec::new();
    let mut start: usize = 0;
    let mut i: usize = 0;
    assert(cs@.skip(0) == cs@);
    assert(r.deep_view() + text_lines(cs@) =~= text_lines(cs@));
    while i < cs.len()
        invariant
            start <= i <= cs@.len(),
            text_lines(cs@) == r.deep_view() + text_lines(cs@.skip(start as int)),
            forall|j: int| start <= j < i ==> #[trigger] cs@[j] != '\n',
        decreases cs@.len() - i,
    {
        if cs[i] == '\n' {
            let end: usize = if i > start && cs[i - 1] == '\r' {
                i - 1
            } else {
                i
            };
            let ghost before = r.deep_view();
            let ghost rest = cs@.skip(start as int);
            r.push(string_between(&cs, start, end));
            proof {
                let n = i - start;
                assert forall|j: int| 0 <= j < n implies #[trigger] rest[j] != '\n' by {
                    assert(rest[j] == cs@[start + j]);
                }
                lemma_find_char(rest, '\n', n);
                let line = cs@.subrange(start as int, end as int);
                assert(drop_cr(rest.take(n)) =~= line);
                assert(rest.skip(n + 1) =~= cs@.skip(i + 1));
                assert(r.deep_view() =~= before.push(line));
                assert(before + (seq![line] + text_lines(cs@.skip(i + 1))) =~= r.deep_view()
                    + text_lines(cs@.skip(i + 1)));
            }
            start = i + 1;
        }
        i = i + 1;
    }
    let ghost rest = cs@.skip(start as int);
    if start < cs.len() {
        let ghost before = r.deep_view();
        r.push(string_between(&cs, start, cs.len()));
        proof {
            assert forall|j: int| 0 <= j < rest.len() implies #[trigger] rest[j] != '\n' by {
                assert(rest[j] == cs@[start + j]);
            }
            lemma_find_char(rest, '\n', rest.len() as int);
            assert(cs@.subrange(start as int, cs@.len() as int) =~= rest);
            assert(r.deep_view() =~= before.push(rest));
            assert(before + seq![rest] =~= r.deep_view());
        }
    } else {
        assert(r.deep_view() + text_lines(rest) =~= r.deep_view());
    }
    r
}

/// The strings of `parts` with `sep` between each two.
pub open spec fn join(parts: Seq<Seq<char>>, sep: Seq<char>) -> Seq<char>
    decreases parts.len(),
{
    if parts.len() == 0 {
        seq![]
    } else if parts.len() == 1 {
        parts[0]
    } else {
        join(parts.drop_last(), sep) + sep + parts.last()
    }
}

/// The strings of `parts` with `sep` between each two.
pub fn joined(parts: &[String], sep: &str) -> (r: String)
    ensures
        r@ == join(parts.deep_view(), sep@),
{
    let mut r = String::new();
    for i in 0..parts.len()
        invariant
            r@ == join(parts.deep_view().take(i as int), sep@),
    {
        let ghost next = parts.deep_view().take(i + 1);
        assert(next.drop_last() =~= parts.deep_view().take(i as int));
        assert(next.last() == parts@[i as int]@);
        if i > 0 {
            r.append(sep);
        }
        r.append(parts[i].as_str());
        assert(i == 0 ==> r@ =~= next[0]);
    }
    assert(parts.deep_view().take(parts@.len() as int) =~= parts.deep_view());
    r
}

/// The parts of `s` between its occurrences of `c`.
pub open spec fn split_char(s: Seq<char>, c: char) -> Seq<Seq<char>>
    decreases s.len(),
{
    let n = find_char(s, c);
    if n >= s.len() {
        seq![s]
    } else {
        seq![s.take(n as int)] + split_char(s.skip(n as int + 1), c)
    }
}

pub proof fn lemma_split_char_nonempty(s: Seq<char>, c: char)
    ensures
        split_char(s, c).len() >= 1,
    decreases s.len(),
{
    if find_char(s, c) < s.len() {
        lemma_split_char_nonempty(s.skip(find_char(s, c) as int + 1), c);
    }
}

/// The parts of two lists, joined, are those of each list, joined.
pub proof fn lemma_join_two(a: Seq<Seq<char>>, b: Seq<Seq<char>>, sep: Seq<char>)
    requires
        a.len() > 0,
        b.len() > 0,
    ensures
        join(a + b, sep) == join(a, sep) + sep + join(b, sep),
    decreases b.len(),
{
    assert((a + b).drop_last() =~= a + b.drop_last());
    assert((a + b).last() == b.last());
    if b.len() == 1 {
        assert(a + b.drop_last() =~= a);
    } else {
        lemma_join_two(a, b.drop_last(), sep);
        assert(join(a + b, sep) =~= join(a, sep) + sep + join(b, sep));
    }
}

/// Joining what was split gives the text back.
pub proof fn lemma_join_split(s: Seq<char>, c: char)
    ensures
        join(split_char(s, c), seq![c]) == s,
    decreases s.len(),
{
    let n = find_char(s, c) as int;
    lemma_find_char_bound(s, c);
    if n < s.len() {
        let rest = s.skip(n + 1);
        lemma_join_split(rest, c);
        lemma_split_char_nonempty(rest, c);
        lemma_join_two(seq![s.take(n)], split_char(rest, c), seq![c]);
        assert(s =~= s.take(n) + seq![c] + rest);
    }
}

/// The parts of `s` between its occurrences of `c`.
pub fn split_on(s: &str, c: char) -> (r: Vec<String>)
    ensures
        r.deep_view() == split_char(s@, c),
        r@.len() >= 1,
{
    let cs = chars_of(s);
    let mut r: Vec<String> = Vec::new();
    let mut start: usize = 0;
    let mut i: usize = 0;
    assert(cs@.skip(0) == cs@);
    assert(r.deep_view() + split_char(cs@, c) =~= split_char(cs@, c));
    while i < cs.len()
        invariant
            start <= i <= cs@.len(),
            split_char(cs@, c) == r.deep_view() + split_char(cs@.skip(start as int), c),
            forall|j: int| start <= j < i ==> #[trigger] cs@[j] != c,
        decreases cs@.len() - i,
    {
        if cs[i] == c {
            let ghost before = r.deep_view();
            let ghost rest = cs@.skip(start as int);
            r.push(string_between(&cs, start, i));
            proof {
                let n = i - start;
                assert forall|j: int| 0 <= j < n implies #[trigger] rest[j] != c by {
                    assert(rest[j] == cs@[start + j]);
                }
                lemma_find_char(rest, c, n);
                let part = cs@.subrange(start as int, i as int);
                assert(rest.take(n) =~= part);
                assert(rest.skip(n + 1) =~= cs@.skip(i + 1));
                assert(r.deep_view() =~= before.push(part));
                assert(before + (seq![part] + split_char(cs@.skip(i + 1), c)) =~= r.deep_view()
                    + split_char(cs@.skip(i + 1), c));
            }
            start = i + 1;
        }
        i = i + 1;
    }
    let ghost rest = cs@.skip(start as int);
    let ghost before = r.deep_view();
    r.push(string_between(&cs, start, cs.len()));
    proof {
        assert forall|j: int| 0 <= j < rest.len() implies #[trigger] rest[j] != c by {
            assert(rest[j] == cs@[start + j]);
        }
        lemma_find_char(rest, c, rest.len() as int);
        assert(cs@.subrange(start as int, cs@.len() as int) =~= rest);
        assert(r.deep_view() =~= before.push(rest));
        assert(before + seq![rest] =~= r.deep_view());
    }
    r
}

// ---------------------------------------------------------------------------
// Numbers

/// Whether `c` is one of the ten ASCII digits.
pub open spec fn digit(c: char) -> bool {
    '0' <= c <= '9'
}

/// The number that the digits `s` write in base ten.
pub open spec fn digits_value(s: Seq<char>) -> nat
    decreases s.len(),
{
    if s.len() == 0 {
        0
    } else {
        digits_value(s.drop_last()) * 10 + (s.last() as nat - '0' as nat) as nat
    }
}

/// `s` without the plus sign that it may start with.
pub open spec fn unsigned(s: Seq<char>) -> Seq<char> {
    if s.len() > 0 && s[0] == '+' {
        s.skip(1)
    } else {
        s
    }
}

/// Whether `s` is made of ASCII digits, at least one.
pub open spec fn all_digits(s: Seq<char>) -> bool {
    s.len() > 0 && forall|i: int| 0 <= i < s.len() ==> digit(#[trigger] s[i])
}

/// The number that `s` writes: ASCII digits after an optional plus sign, of a
/// value up to `max`.
pub open spec fn number(s: Seq<char>, max: nat) -> Option<nat> {
    let d = unsigned(s);
    if all_digits(d) && digits_value(d) <= max {
        Some(digits_value(d))
    } else {
        None
    }
}

proof fn lemma_digits_value_grows(s: Seq<char>, n: int)
    requires
        0 <= n <= s.len(),
    ensures
        digits_value(s.take(n)) <= digits_value(s),
    decreases s.len() - n,
{
    if n < s.len() {
        lemma_digits_value_grows(s, n + 1);
        assert(s.take(n + 1).drop_last() =~= s.take(n));
    } else {
        assert(s.take(n) =~= s);
    }
}

/// The number that `s` writes, where it is at most `max`.
pub fn parse_number(s: &str, max: usize) -> (r: Option<usize>)
    ensures
        match r {
            Some(v) => number(s@, max as nat) == Some(v as nat),
            None => number(s@, max as nat) is None,
        },
{
    let cs = chars_of(s);
    let start: usize = if cs.len() > 0 && cs[0] == '+' {
        1
    } else {
        0
    };
    let d = slice_subrange(&cs, start, cs.len());
    assert(d@ == unsigned(s@));
    if d.len() == 0 {
        return None;
    }
    let mut v: usize = 0;
    for i in 0..d.len()
        invariant
            d@ == unsigned(s@),
            v == digits_value(d@.take(i as int)),
            v <= max,
            forall|j: int| 0 <= j < i ==> digit(#[trigger] d@[j]),
    {
        let c = d[i];
        if !('0' <= c && c <= '9') {
            assert(!digit(d@[i as int]));
            return None;
        }
        let k: usize = (c as u32 - '0' as u32) as usize;
        let ghost next = d@.take(i + 1);
        proof {
            assert(next.drop_last() =~= d@.take(i as int));
            assert(digits_value(next) == v * 10 + k);
            lemma_digits_value_grows(d@, i + 1);
        }
        if v > max / 10 || k > max - v * 10 {
            return None;
        }
        v = v * 10 + k;
    }
    assert(d@.take(d@.len() as int) =~= d@);
    Some(v)
}

/// The decimal digits of `n`, without leading zeros.
pub open spec fn decimal(n: nat) -> Seq<char>
    decreases n,
{
    let last = seq![(('0' as nat + n % 10) as char)];
    if n < 10 {
        last
    } else {
        decimal(n / 10) + last
    }
}

/// The decimal digits of `n`.
pub fn decimal_of(n: usize) -> (r: String)
    ensures
        r@ == decimal(n as nat),
    decreases n,
{
    let c: char = (48u8 + (n % 10) as u8) as char;
    if n < 10 {
        let mut r = String::new();
        r.push(c);
        assert(r@ =~= decimal(n as nat));
        r
    } else {
        let mut r = decimal_of(n / 10);
        r.push(c);
        assert(r@ =~= decimal(n as nat));
        r
    }
}

/// The digits of a number write that number.
pub proof fn law_decimal(n: nat)
    ensures
        all_digits(decimal(n)),
        digits_value(decimal(n)) == n,
        forall|max: nat| n <= max ==> #[trigger] number(decimal(n), max) == Some(n),
    decreases n,
{
    let last = seq![(('0' as nat + n % 10) as char)];
    if n >= 10 {
        law_decimal(n / 10);
        assert(decimal(n).drop_last() =~= decimal(n / 10));
    } else {
        assert(decimal(n).drop_last() =~= seq![]);
    }
    assert(decimal(n).last() == last[0]);
    assert(last[0] as nat == '0' as nat + n % 10);
    assert forall|i: int| 0 <= i < decimal(n).len() implies digit(#[trigger] decimal(n)[i]) by {
        if i < decimal(n).len() - 1 {
            assert(decimal(n)[i] == decimal(n / 10)[i]);
        }
    }
    assert(digit(decimal(n)[0]));
    let empty = Seq::<char>::empty();
    assert(digits_value(empty) == 0);
    assert(digits_value(decimal(n)) == digits_value(decimal(n).drop_last()) * 10 + n % 10);
    assert(n == n / 10 * 10 + n % 10);
}

/// `n` copies of `c`.
pub open spec fn repeat(c: char, n: nat) -> Seq<char> {
    Seq::new(n, |i: int| c)
}

/// `n` copies of `c`.
pub fn repeated(c: char, n: usize) -> (r: String)
    ensures
        r@ == repeat(c, n as nat),
{
    let mut r = String::new();
    for i in 0..n
        invariant
            r@ == repeat(c, i as nat),
    {
        r.push(c);
        assert(r@ =~= repeat(c, (i + 1) as nat));
    }
    r
}

/// The decimal digits of `n` after as many blanks as make up `width`.
pub open spec fn padded_decimal(n: nat, width: nat) -> Seq<char> {
    let d = decimal(n);
    if d.len() < width {
        repeat(' ', (width - d.len()) as nat) + d
    } else {
        d
    }
}

/// The decimal digits of `n` after as many blanks as make up `width`.
pub fn padded_decimal_of(n: usize, width: usize) -> (r: String)
    ensures
        r@ == padded_decimal(n as nat, width as nat),
{
    let d = decimal_of(n);
    let len: usize = d.as_str().unicode_len();
    if len < width {
        let pad = repeated(' ', width - len);
        cat2(pad.as_str(), d.as_str())
    } else {
        d
    }
}

/// `s` with blanks on both sides that make up `width`, the odd one on the
/// right.
pub open spec fn centered(s: Seq<char>, width: nat) -> Seq<char> {
    if s.len() < width {
        let pad = (width - s.len()) as nat;
        repeat(' ', pad / 2) + s + repeat(' ', (pad - pad / 2) as nat)
    } else {
        s
    }
}

/// `s` with blanks on both sides that make up `width`.
pub fn centered_of(s: &str, width: usize) -> (r: String)
    ensures
        r@ == centered(s@, width as nat),
{
    let len: usize = s.unicode_len();
    if len < width {
        let pad: usize = width - len;
        let left = repeated(' ', pad / 2);
        let right = repeated(' ', pad - pad / 2);
        cat3(left.as_str(), s, right.as_str())
    } else {
        s.to_owned()
    }
}

/// `c` in lower case, where it is an ASCII letter.
pub open spec fn lower(c: char) -> char {
    if 'A' <= c <= 'Z' {
        (c as u32 + 32) as char
    } else {
        c
    }
}

/// `s` with its ASCII letters in lower case.
pub open spec fn ascii_lower(s: Seq<char>) -> Seq<char> {
    s.map_values(|c: char| lower(c))
}

/// `s` with its ASCII letters in lower case.
pub fn lowered(s: &str) -> (r: String)
    ensures
        r@ == ascii_lower(s@),
{
    let mut r = String::new();
    let cs = chars_of(s);
    for i in 0..cs.len()
        invariant
            cs@ == s@,
            r@ == ascii_lower(s@).take(i as int),
    {
        let c = cs[i];
        if 'A' <= c && c <= 'Z' {
            let b: u8 = c as u8 + 32;
            r.push(b as char);
        } else {
            r.push(c);
        }
        assert(r@ =~= ascii_lower(s@).take(i + 1));
    }
    assert(ascii_lower(s@).take(cs@.len() as int) =~= ascii_lower(s@));
    r
}

// ---------------------------------------------------------------------------
// Order

/// Whether `a` comes before `b` in the order of their code points.
pub open spec fn before(a: Seq<char>, b: Seq<char>) -> bool
    decreases a.len(),
{
    if b.len() == 0 {
        false
    } else if a.len() == 0 {
        true
    } else if a[0] != b[0] {
        a[0] < b[0]
    } else {
        before(a.skip(1), b.skip(1))
    }
}

/// Whether `a` comes before `b`.
pub fn comes_before(a: &str, b: &str) -> (r: bool)
    ensures
        r == before(a@, b@),
{
    let x = chars_of(a);
    let y = chars_of(b);
    let mut i: usize = 0;
    assert(x@.skip(0) == x@);
    assert(y@.skip(0) == y@);
    loop
        invariant
            i <= x@.len(),
            i <= y@.len(),
            x@ == a@,
            y@ == b@,
            before(a@, b@) == before(x@.skip(i as int), y@.skip(i as int)),
        decreases x@.len() - i,
    {
        if i >= y.len() {
            return false;
        }
        if i >= x.len() {
            return true;
        }
        if x[i] != y[i] {
            return x[i] < y[i];
        }
        assert(x@.skip(i as int).skip(1) == x@.skip(i + 1));
        assert(y@.skip(i as int).skip(1) == y@.skip(i + 1));
        i = i + 1;
    }
}

/// The order of code points is irreflexive.
pub proof fn lemma_before_irreflexive(a: Seq<char>)
    ensures
        !before(a, a),
    decreases a.len(),
{
    if a.len() > 0 {
        lemma_before_irreflexive(a.skip(1));
    }
}

/// The order of code points is transitive.
pub proof fn lemma_before_transitive(a: Seq<char>, b: Seq<char>, c: Seq<char>)
    requires
        before(a, b),
        before(b, c),
    ensures
        before(a, c),
    decreases a.len(),
{
    if a.len() > 0 && a[0] == b[0] && b[0] == c[0] {
        lemma_before_transitive(a.skip(1), b.skip(1), c.skip(1));
    }
}

/// The order of code points is total.
pub proof fn lemma_before_total(a: Seq<char>, b: Seq<char>)
    ensures
        a == b || before(a, b) || before(b, a),
    decreases a.len(),
{
    if a.len() > 0 && b.len() > 0 && a[0] == b[0] {
        lemma_before_total(a.skip(1), b.skip(1));
        if a.skip(1) == b.skip(1) {
            assert(a =~= seq![a[0]] + a.skip(1));
            assert(b =~= seq![b[0]] + b.skip(1));
        }
    } else if a.len() == 0 && b.len() == 0 {
        assert(a =~= b);
    }
}

/// A separator parts what is before it from what is after it, and a text without
/// one is a single part.
pub proof fn law_split_around(a: Seq<char>, b: Seq<char>, c: char)
    ensures
        split_char(a + seq![c] + b, c) == split_char(a, c) + split_char(b, c),
        !a.contains(c) ==> split_char(a, c) == seq![a],
    decreases a.len(),
{
    let s = a + seq![c] + b;
    let n = find_char(a, c) as int;
    lemma_find_char_bound(a, c);
    if n >= a.len() {
        assert forall|j: int| 0 <= j < n implies #[trigger] s[j] != c by {
            assert(s[j] == a[j]);
        }
        assert(s[n] == c);
        lemma_find_char(s, c, n);
        assert(s.take(n) =~= a);
        assert(s.skip(n + 1) =~= b);
    } else {
        assert(a.contains(a[n]));
        assert forall|j: int| 0 <= j < n implies #[trigger] s[j] != c by {
            assert(s[j] == a[j]);
        }
        assert(s[n] == c);
        lemma_find_char(s, c, n);
        let rest = a.skip(n + 1);
        law_split_around(rest, b, c);
        assert(s.take(n) =~= a.take(n));
        assert(s.skip(n + 1) =~= rest + seq![c] + b);
        assert(split_char(s, c) =~= split_char(a, c) + split_char(b, c));
    }
}

/// A number over the limit is none, and neither is one with a character in it that is
/// no digit. A plus sign may stand before a number.
pub proof fn law_number(n: nat, max: nat, s: Seq<char>, i: int)
    requires
        0 < i < s.len(),
        !('0' <= s[i] <= '9'),
    ensures
        number(seq!['+'] + decimal(n), max) == number(decimal(n), max),
        n > max ==> number(decimal(n), max) is None,
        number(s, max) is None,
        number(seq![], max) is None,
{
    law_decimal(n);
    let d = decimal(n);
    assert(digit(d[0]));
    assert((seq!['+'] + d).skip(1) =~= d);
    if s[0] == '+' {
        assert(s.skip(1)[i - 1] == s[i]);
        assert(!digit(s.skip(1)[i - 1]));
    } else {
        assert(!digit(s[i]));
    }
}

/// Capital letters become small, and nothing else changes.
pub proof fn law_lowered(s: Seq<char>, i: int)
    requires
        0 <= i < s.len(),
    ensures
        ascii_lower(s).len() == s.len(),
        'A' <= s[i] <= 'Z' ==> 'a' <= ascii_lower(s)[i] <= 'z' && ascii_lower(s)[i] as u32
            - 'a' as u32 == s[i] as u32 - 'A' as u32,
        !('A' <= s[i] <= 'Z') ==> ascii_lower(s)[i] == s[i],
        ascii_lower(ascii_lower(s)) == ascii_lower(s),
{
    let r = ascii_lower(s);
    assert forall|k: int| 0 <= k < s.len() implies lower(#[trigger] r[k]) == r[k] by {
        assert(r[k] == lower(s[k]));
    }
    assert(ascii_lower(r) =~= r);
}

/// Texts are ordered by the first character in which they differ, and one that goes
/// on comes after one that ends.
pub proof fn law_before(start: Seq<char>, x: char, a: Seq<char>, y: char, b: Seq<char>)
    requires
        x != y,
    ensures
        before(start + seq![x] + a, start + seq![y] + b) <==> x < y,
        before(start, start + seq![x] + a),
        !before(start, start),
        !before(start + seq![x] + a, start),
    decreases start.len(),
{
    let s = start + seq![x] + a;
    let t = start + seq![y] + b;
    if start.len() == 0 {
        assert(s[0] == x && t[0] == y);
    } else {
        law_before(start.skip(1), x, a, y, b);
        assert(s.skip(1) =~= start.skip(1) + seq![x] + a);
        assert(t.skip(1) =~= start.skip(1) + seq![y] + b);
        assert(s[0] == start[0] && t[0] == start[0]);
    }
}

/// A text in the middle has as many blanks before it as after it, or one less.
pub proof fn law_centered(s: Seq<char>, width: nat)
    requires
        s.len() <= width,
    ensures
        exists|left: nat, right: nat|
            #![trigger repeat(' ', left), repeat(' ', right)]
            left <= right <= left + 1 && left + s.len() + right == width && centered(s, width)
                == repeat(' ', left) + s + repeat(' ', right),
{
    let pad = (width - s.len()) as nat;
    let left = pad / 2;
    let right = (pad - pad / 2) as nat;
    if pad == 0 {
        assert(repeat(' ', 0) + s + repeat(' ', 0) =~= s);
    }
    assert(centered(s, width) == repeat(' ', left) + s + repeat(' ', right));
}

} // verus!
