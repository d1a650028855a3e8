use vstd::prelude::*;

verus! {

/// Whether `c` has the Unicode `White_Space` property, as `char::is_whitespace` decides.
pub open spec fn is_space(c: char) -> bool {
    ('\u{9}' <= c && c <= '\u{d}') || c == ' ' || c == '\u{85}' || c == '\u{a0}'
        || c == '\u{1680}' || ('\u{2000}' <= c && c <= '\u{200a}') || c == '\u{2028}'
        || c == '\u{2029}' || c == '\u{202f}' || c == '\u{205f}' || c == '\u{3000}'
}

/// Executable test for `is_space`.
pub fn is_space_char(c: char) -> (r: bool)
    ensures
        r == is_space(c),
{
    ('\u{9}' <= c && c <= '\u{d}') || c == ' ' || c == '\u{85}' || c == '\u{a0}'
        || c == '\u{1680}' || ('\u{2000}' <= c && c <= '\u{200a}') || c == '\u{2028}'
        || c == '\u{2029}' || c == '\u{202f}' || c == '\u{205f}' || c == '\u{3000}'
}

} // verus!

verus! {

/// `s` with its leading white space removed.
pub open spec fn trim_front(s: Seq<char>) -> Seq<char>
    decreases s.len(),
{
    if s.len() > 0 && is_space(s[0]) {
        trim_front(s.drop_first())
    } else {
        s
    }
}

/// `s` with its trailing white space removed.
pub open spec fn trim_back(s: Seq<char>) -> Seq<char>
    decreases s.len(),
{
    if s.len() > 0 && is_space(s.last()) {
        trim_back(s.drop_last())
    } else {
        s
    }
}

/// `s` with white space removed at both ends.
pub open spec fn trimmed(s: Seq<char>) -> Seq<char> {
    trim_back(trim_front(s))
}

/// The longest prefix of `s` that holds no white space.
pub open spec fn first_word(s: Seq<char>) -> Seq<char>
    decreases s.len(),
{
    if s.len() == 0 || is_space(s[0]) {
        Seq::empty()
    } else {
        seq![s[0]] + first_word(s.drop_first())
    }
}

/// Whether `s` begins with `p`.
pub open spec fn starts_with(s: Seq<char>, p: Seq<char>) -> bool {
    p.len() <= s.len() && s.subrange(0, p.len() as int) == p
}

/// Whether the two characters `" :"` stand at position `i` of `s`.
pub open spec fn marker_at(s: Seq<char>, i: int) -> bool {
    0 <= i && i + 1 < s.len() && s[i] == ' ' && s[i + 1] == ':'
}

/// The first position at or after `i` where `" :"` stands in `s`, if any.
pub open spec fn find_marker_from(s: Seq<char>, i: int) -> Option<int>
    decreases s.len() - i,
{
    if i < 0 || i + 1 >= s.len() {
        None
    } else if marker_at(s, i) {
        Some(i)
    } else {
        find_marker_from(s, i + 1)
    }
}

/// The first position where `" :"` stands in `s`, if any.
pub open spec fn find_marker(s: Seq<char>) -> Option<int> {
    find_marker_from(s, 0)
}

proof fn lemma_trim_front_from(s: Seq<char>, i: int)
    requires
        0 <= i < s.len(),
        is_space(s[i]),
    ensures
        trim_front(s.subrange(i, s.len() as int)) == trim_front(s.subrange(i + 1, s.len() as int)),
{
    assert(s.subrange(i, s.len() as int).drop_first() =~= s.subrange(i + 1, s.len() as int));
}

proof fn lemma_trim_back_to(s: Seq<char>, j: int)
    requires
        0 < j <= s.len(),
        is_space(s[j - 1]),
    ensures
        trim_back(s.subrange(0, j)) == trim_back(s.subrange(0, j - 1)),
{
    assert(s.subrange(0, j).drop_last() =~= s.subrange(0, j - 1));
}

/// Removes the white space at the start of `s`.
pub fn trim_start(s: &str) -> (r: &str)
    ensures
        r@ == trim_front(s@),
{
    let n = s.unicode_len();
    let mut i: usize = 0;
    assert(s@.subrange(0, n as int) =~= s@);
    while i < n && is_space_char(s.get_char(i))
        invariant
            n == s@.len(),
            i <= n,
            trim_front(s@) == trim_front(s@.subrange(i as int, n as int)),
        decreases n - i,
    {
        proof {
            lemma_trim_front_from(s@, i as int);
        }
        i = i + 1;
    }
    let r = s.substring_char(i, n);
    assert(trim_front(r@) == r@) by {
        if i < n {
            assert(!is_space(r@[0]));
        }
    }
    r
}

/// Removes the white space at the end of `s`.
pub fn trim_end(s: &str) -> (r: &str)
    ensures
        r@ == trim_back(s@),
{
    let n = s.unicode_len();
    let mut j: usize = n;
    assert(s@.subrange(0, n as int) =~= s@);
    while j > 0 && is_space_char(s.get_char(j - 1))
        invariant
            n == s@.len(),
            j <= n,
            trim_back(s@) == trim_back(s@.subrange(0, j as int)),
        decreases j,
    {
        proof {
            lemma_trim_back_to(s@, j as int);
        }
        j = j - 1;
    }
    let r = s.substring_char(0, j);
    assert(trim_back(r@) == r@) by {
        if j > 0 {
            assert(!is_space(r@.last()));
        }
    }
    r
}

/// Removes the white space at both ends of `s`.
pub fn trim(s: &str) -> (r: &str)
    ensures
        r@ == trimmed(s@),
{
    trim_end(trim_start(s))
}

proof fn lemma_first_word_prefix(s: Seq<char>, i: int)
    requires
        0 <= i < s.len(),
        forall|k: int| 0 <= k < i ==> !is_space(#[trigger] s[k]),
    ensures
        first_word(s) == s.subrange(0, i) + first_word(s.subrange(i, s.len() as int)),
    decreases i,
{
    if i > 0 {
        let t = s.drop_first();
        assert forall|k: int| 0 <= k < i - 1 implies !is_space(#[trigger] t[k]) by {
            assert(t[k] == s[k + 1]);
        }
        lemma_first_word_prefix(t, i - 1);
        assert(t.subrange(i - 1, t.len() as int) =~= s.subrange(i, s.len() as int));
        assert(seq![s[0]] + t.subrange(0, i - 1) =~= s.subrange(0, i));
        assert(seq![s[0]] + (t.subrange(0, i - 1) + first_word(s.subrange(i, s.len() as int)))
            =~= s.subrange(0, i) + first_word(s.subrange(i, s.len() as int)));
    } else {
        assert(s.subrange(0, 0) + first_word(s) =~= first_word(s));
        assert(s.subrange(0, s.len() as int) =~= s);
    }
}

proof fn lemma_first_word_whole(s: Seq<char>)
    requires
        forall|k: int| 0 <= k < s.len() ==> !is_space(#[trigger] s[k]),
    ensures
        first_word(s) == s,
    decreases s.len(),
{
    if s.len() > 0 {
        let t = s.drop_first();
        assert forall|k: int| 0 <= k < t.len() implies !is_space(#[trigger] t[k]) by {
            assert(t[k] == s[k + 1]);
        }
        lemma_first_word_whole(t);
        assert(seq![s[0]] + t =~= s);
    } else {
        assert(s =~= Seq::empty());
    }
}

/// The first word of `s`: its longest prefix that holds no white space.
pub fn word_at_start(s: &str) -> (r: &str)
    ensures
        r@ == first_word(s@),
{
    let n = s.unicode_len();
    let mut i: usize = 0;
    while i < n && !is_space_char(s.get_char(i))
        invariant
            n == s@.len(),
            i <= n,
            forall|k: int| 0 <= k < i ==> !is_space(#[trigger] s@[k]),
        decreases n - i,
    {
        i = i + 1;
    }
    let r = s.substring_char(0, i);
    proof {
        if i < n {
            lemma_first_word_prefix(s@, i as int);
            assert(first_word(s@.subrange(i as int, n as int)) =~= Seq::empty());
            assert(r@ + Seq::empty() =~= r@);
        } else {
            assert(s@.subrange(0, n as int) =~= s@);
            lemma_first_word_whole(s@);
        }
    }
    r
}

/// Whether `s` begins with `p`.
pub fn has_prefix(s: &str, p: &str) -> (r: bool)
    ensures
        r == starts_with(s@, p@),
{
    let n = s.unicode_len();
    let m = p.unicode_len();
    if m > n {
        return false;
    }
    let mut i: usize = 0;
    while i < m
        invariant
            n == s@.len(),
            m == p@.len(),
            m <= n,
            i <= m,
            forall|k: int| 0 <= k < i ==> s@[k] == p@[k],
        decreases m - i,
    {
        if s.get_char(i) != p.get_char(i) {
            assert(s@.subrange(0, m as int)[i as int] != p@[i as int]);
            return false;
        }
        i = i + 1;
    }
    assert(s@.subrange(0, m as int) =~= p@);
    true
}

/// `find_marker_from` finds the first marker at or after `i`, and only a marker.
pub proof fn lemma_find_marker_from(s: Seq<char>, i: int)
    requires
        0 <= i,
    ensures
        match find_marker_from(s, i) {
            Some(j) => i <= j && marker_at(s, j) && forall|k: int|
                i <= k < j ==> !#[trigger] marker_at(s, k),
            None => forall|k: int| i <= k ==> !#[trigger] marker_at(s, k),
        },
    decreases s.len() - i,
{
    if i + 1 < s.len() && !marker_at(s, i) {
        lemma_find_marker_from(s, i + 1);
    }
}

/// The first position where `" :"` stands in `s`, if any.
pub fn marker_position(s: &str) -> (r: Option<usize>)
    ensures
        match r {
            Some(i) => find_marker(s@) == Some(i as int),
            None => find_marker(s@) is None,
        },
        match r {
            Some(i) => marker_at(s@, i as int) && forall|k: int|
                0 <= k < i ==> !#[trigger] marker_at(s@, k),
            None => forall|k: int| 0 <= k ==> !#[trigger] marker_at(s@, k),
        },
{
    let n = s.unicode_len();
    if n < 2 {
        proof {
            lemma_find_marker_from(s@, 0);
        }
        return None;
    }
    let mut i: usize = 0;
    while i < n - 1
        invariant
            n == s@.len(),
            2 <= n,
            i <= n,
            find_marker(s@) == find_marker_from(s@, i as int),
        decreases n - i,
    {
        if s.get_char(i) == ' ' && s.get_char(i + 1) == ':' {
            assert(find_marker_from(s@, i as int) == Some(i as int));
            proof {
                lemma_find_marker_from(s@, 0);
            }
            return Some(i);
        }
        i = i + 1;
    }
    proof {
        lemma_find_marker_from(s@, 0);
    }
    None
}

/// `line` without its line ending: one trailing `"\r\n"` or `"\n"` is removed.
pub open spec fn record_of(line: Seq<char>) -> Seq<char> {
    if line.len() >= 2 && line[line.len() - 2] == '\r' && line.last() == '\n' {
        line.subrange(0, line.len() - 2)
    } else if line.len() >= 1 && line.last() == '\n' {
        line.subrange(0, line.len() - 1)
    } else {
        line
    }
}

/// Removes one trailing `"\r\n"` or `"\n"` from `line`.
pub fn strip_line_ending(line: &str) -> (r: &str)
    ensures
        r@ == record_of(line@),
{
    let n = line.unicode_len();
    if n >= 2 && line.get_char(n - 2) == '\r' && line.get_char(n - 1) == '\n' {
        line.substring_char(0, n - 2)
    } else if n >= 1 && line.get_char(n - 1) == '\n' {
        line.substring_char(0, n - 1)
    } else {
        line
    }
}

} // verus!
