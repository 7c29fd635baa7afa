//! Text as a sequence of characters: the operations that the rest of the
//! library is written with, each stated over `Seq<char>`.

use vstd::prelude::*;

verus! {

/// `String::push` appends one character at the end.
pub assume_specification[std::string::String::push](s: &mut std::string::String, c: char)
    ensures
        final(s)@ == old(s)@.push(c),
;

// ---------------------------------------------------------------------------
// Conversions
// ---------------------------------------------------------------------------

/// The characters of a text, in order.
pub fn chars_of(s: &str) -> (r: Vec<char>)
    ensures
        r@ == s@,
{
    let mut out: Vec<char> = Vec::new();
    for c in it: s.chars()
        invariant
            it.seq() == s@,
            out@ == s@.take(it.index()),
    {
        out.push(c);
        assert(out@ =~= s@.take(it.index() + 1));
    }
    assert(out@ =~= s@);
    out
}

/// The text made of `v[from..to]`.
pub fn text_range(v: &Vec<char>, from: usize, to: usize) -> (r: String)
    requires
        from <= to <= v@.len(),
    ensures
        r@ == v@.subrange(from as int, to as int),
{
    let mut out = String::new();
    let mut i: usize = from;
    while i < to
        invariant
            from <= i <= to <= v@.len(),
            out@ == v@.subrange(from as int, i as int),
        decreases to - i,
    {
        out.push(v[i]);
        i += 1;
        assert(out@ =~= v@.subrange(from as int, i as int));
    }
    assert(out@ =~= v@.subrange(from as int, to as int));
    out
}

/// The text made of all the characters of `v`.
pub fn text_of(v: &Vec<char>) -> (r: String)
    ensures
        r@ == v@,
{
    let r = text_range(v, 0, v.len());
    assert(v@.subrange(0, v@.len() as int) =~= v@);
    r
}

/// An owned copy of a text.
pub fn owned(s: &str) -> (r: String)
    ensures
        r@ == s@,
{
    s.to_owned()
}

/// A copy of an optional text.
pub fn copy_opt(o: &Option<String>) -> (r: Option<String>)
    ensures
        r == *o,
{
    match o {
        Some(s) => Some(s.clone()),
        None => None,
    }
}

/// Whether two optional texts are equal.
pub fn same_opt(a: &Option<String>, b: &Option<String>) -> (r: bool)
    ensures
        r == (a.deep_view() == b.deep_view()),
{
    match (a, b) {
        (Some(x), Some(y)) => same_text(x, y),
        (None, None) => true,
        _ => false,
    }
}

/// The optional text, or the other one where there is none.
pub fn or_else_text(a: &Option<String>, b: &str) -> (r: String)
    ensures
        r@ == (match *a {
            Some(s) => s@,
            None => b@,
        }),
{
    match a {
        Some(s) => s.clone(),
        None => owned(b),
    }
}

/// Appends to a vector, seen through the models of its elements.
pub fn push_deep<T: DeepView>(v: &mut Vec<T>, x: T)
    ensures
        final(v)@ == old(v)@.push(x),
        final(v).deep_view() == old(v).deep_view().push(x.deep_view()),
{
    let ghost before = v@;
    v.push(x);
    assert(v.deep_view() =~= Seq::new(before.len(), |i: int| before[i].deep_view()).push(x.deep_view()));
}

// ---------------------------------------------------------------------------
// Equality, prefixes, suffixes
// ---------------------------------------------------------------------------

/// Whether two texts hold the same characters.
pub fn same_text(a: &str, b: &str) -> (r: bool)
    ensures
        r == (a@ == b@),
{
    let x = chars_of(a);
    let y = chars_of(b);
    same_chars(&x, &y)
}

/// Whether two character vectors are equal.
pub fn same_chars(x: &Vec<char>, y: &Vec<char>) -> (r: bool)
    ensures
        r == (x@ == y@),
{
    if x.len() != y.len() {
        return false;
    }
    let mut i: usize = 0;
    while i < x.len()
        invariant
            i <= x@.len(),
            x@.len() == y@.len(),
            x@.take(i as int) == y@.take(i as int),
        decreases x@.len() - i,
    {
        if x[i] != y[i] {
            assert(x@[i as int] != y@[i as int]);
            return false;
        }
        assert(x@.take(i + 1) =~= x@.take(i as int).push(x@[i as int]));
        assert(y@.take(i + 1) =~= y@.take(i as int).push(y@[i as int]));
        i += 1;
    }
    assert(x@.take(i as int) =~= x@);
    assert(y@.take(i as int) =~= y@);
    true
}

/// Whether `p` stands in `v` at position `at`.
pub open spec fn stands_at(v: Seq<char>, p: Seq<char>, at: int) -> bool {
    0 <= at && at + p.len() <= v.len() && v.subrange(at, at + p.len()) == p
}

/// Whether `p` stands in `v` at position `at`.
pub fn chars_stand_at(v: &Vec<char>, p: &Vec<char>, at: usize) -> (r: bool)
    ensures
        r == stands_at(v@, p@, at as int),
{
    if at > v.len() || p.len() > v.len() - at {
        return false;
    }
    let mut i: usize = 0;
    while i < p.len()
        invariant
            i <= p@.len(),
            at + p@.len() <= v.len(),
            forall|j: int| 0 <= j < i ==> v@[at + j] == p@[j],
        decreases p@.len() - i,
    {
        if v[at + i] != p[i] {
            assert(v@.subrange(at as int, at + p@.len())[i as int] != p@[i as int]);
            return false;
        }
        i += 1;
    }
    assert(v@.subrange(at as int, at + p@.len()) =~= p@);
    true
}

/// Whether `s` begins with `p`.
pub fn starts_with(s: &str, p: &str) -> (r: bool)
    ensures
        r == p@.is_prefix_of(s@),
{
    let v = chars_of(s);
    let q = chars_of(p);
    let r = chars_stand_at(&v, &q, 0);
    assert(r == p@.is_prefix_of(s@));
    r
}

/// Whether `s` ends with `p`.
pub fn ends_with(s: &str, p: &str) -> (r: bool)
    ensures
        r == p@.is_suffix_of(s@),
{
    let v = chars_of(s);
    let q = chars_of(p);
    if q.len() > v.len() {
        return false;
    }
    let r = chars_stand_at(&v, &q, v.len() - q.len());
    assert(r == p@.is_suffix_of(s@));
    r
}

/// Whether `s` begins with the character.
pub fn starts_with_char(s: &str, c: char) -> (r: bool)
    ensures
        r == (s@.len() > 0 && s@[0] == c),
{
    s.unicode_len() > 0 && s.get_char(0) == c
}

/// Whether `s` ends with the character.
pub fn ends_with_char(s: &str, c: char) -> (r: bool)
    ensures
        r == (s@.len() > 0 && s@.last() == c),
{
    let n: usize = s.unicode_len();
    n > 0 && s.get_char(n - 1) == c
}

/// `s` without the prefix `p`, where it has it.
pub open spec fn strip_prefix_spec(s: Seq<char>, p: Seq<char>) -> Option<Seq<char>> {
    if p.is_prefix_of(s) {
        Some(s.skip(p.len() as int))
    } else {
        None
    }
}

/// `s` without the suffix `p`, where it has it.
pub open spec fn strip_suffix_spec(s: Seq<char>, p: Seq<char>) -> Option<Seq<char>> {
    if p.is_suffix_of(s) {
        Some(s.take(s.len() - p.len()))
    } else {
        None
    }
}

/// `s` without the prefix `p`; `None` where it does not begin with it.
pub fn strip_prefix(s: &str, p: &str) -> (r: Option<String>)
    ensures
        r.deep_view() == strip_prefix_spec(s@, p@),
{
    let v = chars_of(s);
    let q = chars_of(p);
    if starts_with(s, p) {
        let rest = text_range(&v, q.len(), v.len());
        assert(rest@ =~= s@.skip(p@.len() as int));
        Some(rest)
    } else {
        None
    }
}

/// `s` without the suffix `p`; `None` where it does not end with it.
pub fn strip_suffix(s: &str, p: &str) -> (r: Option<String>)
    ensures
        r.deep_view() == strip_suffix_spec(s@, p@),
{
    let v = chars_of(s);
    let q = chars_of(p);
    if ends_with(s, p) {
        let rest = text_range(&v, 0, v.len() - q.len());
        assert(rest@ =~= s@.take(s@.len() - p@.len()));
        Some(rest)
    } else {
        None
    }
}

// ---------------------------------------------------------------------------
// Searching
// ---------------------------------------------------------------------------

/// The first position at or after `from` where `p` stands in `s`.
pub open spec fn find_from(s: Seq<char>, p: Seq<char>, from: int) -> Option<int>
    decreases s.len() - from + 1,
{
    if from < 0 || from > s.len() {
        None
    } else if stands_at(s, p, from) {
        Some(from)
    } else {
        find_from(s, p, from + 1)
    }
}

/// Whether `p` stands somewhere in `s`.
pub open spec fn has_text(s: Seq<char>, p: Seq<char>) -> bool {
    exists|i: int| #[trigger] stands_at(s, p, i)
}

/// `find_from` gives a position where `p` stands, the first one, and gives
/// nothing only where there is none.
pub proof fn lemma_find_from(s: Seq<char>, p: Seq<char>, from: int)
    requires
        0 <= from,
    ensures
        find_from(s, p, from) matches Some(i) ==> from <= i && stands_at(s, p, i)
            && forall|j: int| from <= j < i ==> !#[trigger] stands_at(s, p, j),
        find_from(s, p, from) is None ==> forall|j: int|
            from <= j ==> !#[trigger] stands_at(s, p, j),
    decreases s.len() - from + 1,
{
    if from <= s.len() && !stands_at(s, p, from) {
        lemma_find_from(s, p, from + 1);
    }
}

/// The first position at or after `from` where `p` stands in `v`.
pub fn find_chars(v: &Vec<char>, p: &Vec<char>, from: usize) -> (r: Option<usize>)
    ensures
        match r {
            Some(i) => find_from(v@, p@, from as int) == Some(i as int),
            None => find_from(v@, p@, from as int) is None,
        },
{
    let mut i: usize = from;
    while i < v.len()
        invariant
            from <= i,
            i <= v@.len() || i == from,
            find_from(v@, p@, from as int) == find_from(v@, p@, i as int),
        decreases v@.len() - i,
    {
        if chars_stand_at(v, p, i) {
            return Some(i);
        }
        i += 1;
    }
    if i == v.len() && chars_stand_at(v, p, i) {
        return Some(i);
    }
    proof {
        if i == v@.len() {
            assert(find_from(v@, p@, i + 1) is None);
        }
    }
    None
}

/// Whether `p` stands somewhere in `s`.
pub fn contains_text(s: &str, p: &str) -> (r: bool)
    ensures
        r == has_text(s@, p@),
{
    let v = chars_of(s);
    let q = chars_of(p);
    proof {
        lemma_find_from(s@, p@, 0);
    }
    let r = find_chars(&v, &q, 0);
    assert forall|i: int| stands_at(s@, p@, i) implies r is Some by {}
    r.is_some()
}

/// The first position of a character; the length where there is none.
pub open spec fn first_index(s: Seq<char>, c: char) -> int
    decreases s.len(),
{
    if s.len() == 0 || s[0] == c {
        0
    } else {
        1 + first_index(s.skip(1), c)
    }
}

/// The last position of a character; -1 where there is none.
pub open spec fn last_index(s: Seq<char>, c: char) -> int
    decreases s.len(),
{
    if s.len() == 0 {
        -1
    } else if s.last() == c {
        s.len() - 1
    } else {
        last_index(s.drop_last(), c)
    }
}

/// `first_index` is the first position that holds the character.
pub proof fn lemma_first_index(s: Seq<char>, c: char)
    ensures
        0 <= first_index(s, c) <= s.len(),
        first_index(s, c) < s.len() ==> s[first_index(s, c)] == c,
        forall|j: int| 0 <= j < first_index(s, c) ==> s[j] != c,
    decreases s.len(),
{
    if s.len() > 0 && s[0] != c {
        lemma_first_index(s.skip(1), c);
        assert forall|j: int| 0 <= j < first_index(s, c) implies s[j] != c by {
            if j > 0 {
                assert(s[j] == s.skip(1)[j - 1]);
            }
        }
    }
}

/// `last_index` is the last position that holds the character.
pub proof fn lemma_last_index(s: Seq<char>, c: char)
    ensures
        -1 <= last_index(s, c) < s.len(),
        last_index(s, c) >= 0 ==> s[last_index(s, c)] == c,
        forall|j: int| last_index(s, c) < j < s.len() ==> s[j] != c,
    decreases s.len(),
{
    if s.len() > 0 && s.last() != c {
        lemma_last_index(s.drop_last(), c);
        assert forall|j: int| last_index(s, c) < j < s.len() implies s[j] != c by {
            if j < s.len() - 1 {
                assert(s[j] == s.drop_last()[j]);
            }
        }
    }
}

/// The position of the last `c` in `v`.
pub fn rfind_char(v: &Vec<char>, c: char) -> (r: Option<usize>)
    ensures
        match r {
            Some(i) => last_index(v@, c) == i as int,
            None => last_index(v@, c) == -1,
        },
{
    let mut i: usize = v.len();
    assert(v@.take(i as int) =~= v@);
    while i > 0
        invariant
            i <= v@.len(),
            last_index(v@, c) == last_index(v@.take(i as int), c),
        decreases i,
    {
        assert(v@.take(i as int).drop_last() =~= v@.take(i - 1));
        if v[i - 1] == c {
            return Some(i - 1);
        }
        i -= 1;
    }
    None
}

/// The position of the first `c` in `v`.
pub fn find_char(v: &Vec<char>, c: char) -> (r: Option<usize>)
    ensures
        match r {
            Some(i) => first_index(v@, c) == i as int && i < v@.len(),
            None => first_index(v@, c) == v@.len() && !v@.contains(c),
        },
{
    let mut i: usize = 0;
    assert(v@.skip(0) =~= v@);
    while i < v.len()
        invariant
            i <= v@.len(),
            first_index(v@, c) == i + first_index(v@.skip(i as int), c),
            forall|j: int| 0 <= j < i ==> v@[j] != c,
        decreases v@.len() - i,
    {
        assert(v@.skip(i as int).skip(1) =~= v@.skip(i + 1));
        if v[i] == c {
            return Some(i);
        }
        i += 1;
    }
    None
}

// ---------------------------------------------------------------------------
// Trimming
// ---------------------------------------------------------------------------

/// The characters with the Unicode property White_Space.
pub open spec fn is_white_space(c: char) -> bool {
    let n = c as u32;
    ||| 9 <= n <= 13
    ||| n == 32
    ||| n == 0x85
    ||| n == 0xA0
    ||| n == 0x1680
    ||| 0x2000 <= n <= 0x200A
    ||| n == 0x2028
    ||| n == 0x2029
    ||| n == 0x202F
    ||| n == 0x205F
    ||| n == 0x3000
}

/// Whether the character has the Unicode property White_Space.
pub fn white_space(c: char) -> (r: bool)
    ensures
        r == is_white_space(c),
{
    let n: u32 = c as u32;
    (9 <= n && n <= 13) || n == 32 || n == 0x85 || n == 0xA0 || n == 0x1680 || (0x2000 <= n && n
        <= 0x200A) || n == 0x2028 || n == 0x2029 || n == 0x202F || n == 0x205F || n == 0x3000
}

/// `s` without its leading white space.
pub open spec fn trim_start_spec(s: Seq<char>) -> Seq<char>
    decreases s.len(),
{
    if s.len() > 0 && is_white_space(s[0]) {
        trim_start_spec(s.skip(1))
    } else {
        s
    }
}

/// `s` without its trailing white space.
pub open spec fn trim_end_spec(s: Seq<char>) -> Seq<char>
    decreases s.len(),
{
    if s.len() > 0 && is_white_space(s.last()) {
        trim_end_spec(s.drop_last())
    } else {
        s
    }
}

/// `s` without white space at either end.
pub open spec fn trim_spec(s: Seq<char>) -> Seq<char> {
    trim_end_spec(trim_start_spec(s))
}

/// `s` without leading white space.
pub fn trim_start(s: &str) -> (r: String)
    ensures
        r@ == trim_start_spec(s@),
{
    let v = chars_of(s);
    let mut i: usize = 0;
    assert(v@.skip(0) =~= v@);
    while i < v.len() && white_space(v[i])
        invariant
            i <= v@.len(),
            trim_start_spec(v@) == trim_start_spec(v@.skip(i as int)),
        decreases v@.len() - i,
    {
        assert(v@.skip(i as int).skip(1) =~= v@.skip(i + 1));
        i += 1;
    }
    let r = text_range(&v, i, v.len());
    assert(r@ =~= v@.skip(i as int));
    r
}

/// `s` without trailing white space.
pub fn trim_end(s: &str) -> (r: String)
    ensures
        r@ == trim_end_spec(s@),
{
    let v = chars_of(s);
    let mut i: usize = v.len();
    assert(v@.take(i as int) =~= v@);
    while i > 0 && white_space(v[i - 1])
        invariant
            i <= v@.len(),
            trim_end_spec(v@) == trim_end_spec(v@.take(i as int)),
        decreases i,
    {
        assert(v@.take(i as int).drop_last() =~= v@.take(i - 1));
        i -= 1;
    }
    let r = text_range(&v, 0, i);
    assert(r@ =~= v@.take(i as int));
    r
}

/// `s` without white space at either end.
pub fn trim(s: &str) -> (r: String)
    ensures
        r@ == trim_spec(s@),
{
    let a = trim_start(s);
    trim_end(&a)
}

/// `s` without its leading run of `c`.
pub open spec fn trim_start_char_spec(s: Seq<char>, c: char) -> Seq<char>
    decreases s.len(),
{
    if s.len() > 0 && s[0] == c {
        trim_start_char_spec(s.skip(1), c)
    } else {
        s
    }
}

/// `s` without its trailing run of `c`.
pub open spec fn trim_end_char_spec(s: Seq<char>, c: char) -> Seq<char>
    decreases s.len(),
{
    if s.len() > 0 && s.last() == c {
        trim_end_char_spec(s.drop_last(), c)
    } else {
        s
    }
}

/// `s` without its leading run of `c`.
pub fn trim_start_char(s: &str, c: char) -> (r: String)
    ensures
        r@ == trim_start_char_spec(s@, c),
{
    let v = chars_of(s);
    let mut i: usize = 0;
    assert(v@.skip(0) =~= v@);
    while i < v.len() && v[i] == c
        invariant
            i <= v@.len(),
            trim_start_char_spec(v@, c) == trim_start_char_spec(v@.skip(i as int), c),
        decreases v@.len() - i,
    {
        assert(v@.skip(i as int).skip(1) =~= v@.skip(i + 1));
        i += 1;
    }
    let r = text_range(&v, i, v.len());
    assert(r@ =~= v@.skip(i as int));
    r
}

/// `s` without its trailing run of `c`.
pub fn trim_end_char(s: &str, c: char) -> (r: String)
    ensures
        r@ == trim_end_char_spec(s@, c),
{
    let v = chars_of(s);
    let mut i: usize = v.len();
    assert(v@.take(i as int) =~= v@);
    while i > 0 && v[i - 1] == c
        invariant
            i <= v@.len(),
            trim_end_char_spec(v@, c) == trim_end_char_spec(v@.take(i as int), c),
        decreases i,
    {
        assert(v@.take(i as int).drop_last() =~= v@.take(i - 1));
        i -= 1;
    }
    let r = text_range(&v, 0, i);
    assert(r@ =~= v@.take(i as int));
    r
}

/// `s` without its leading repetitions of `p`.
pub open spec fn trim_start_text_spec(s: Seq<char>, p: Seq<char>) -> Seq<char>
    decreases s.len(),
{
    if p.len() > 0 && p.is_prefix_of(s) {
        trim_start_text_spec(s.skip(p.len() as int), p)
    } else {
        s
    }
}

/// `s` without its leading repetitions of `p`.
pub fn trim_start_text(s: &str, p: &str) -> (r: String)
    ensures
        r@ == trim_start_text_spec(s@, p@),
{
    let v = chars_of(s);
    let q = chars_of(p);
    if q.len() == 0 {
        return text_of(&v);
    }
    let mut i: usize = 0;
    assert(v@.skip(0) =~= v@);
    while chars_stand_at(&v, &q, i)
        invariant
            q@.len() > 0,
            q@ == p@,
            v@ == s@,
            i <= v.len(),
            trim_start_text_spec(v@, q@) == trim_start_text_spec(v@.skip(i as int), q@),
        decreases v.len() - i,
    {
        assert(v@.skip(i as int).subrange(0, q@.len() as int) =~= v@.subrange(
            i as int,
            i + q@.len(),
        ));
        assert(v@.skip(i as int).skip(q@.len() as int) =~= v@.skip(i + q@.len()));
        i += q.len();
    }
    proof {
        if q@.is_prefix_of(v@.skip(i as int)) {
            assert(v@.skip(i as int).subrange(0, q@.len() as int) =~= v@.subrange(
                i as int,
                i + q@.len(),
            ));
            assert(stands_at(v@, q@, i as int));
        }
    }
    let r = text_range(&v, i, v.len());
    assert(r@ =~= v@.skip(i as int));
    r
}

// ---------------------------------------------------------------------------
// Splitting and joining
// ---------------------------------------------------------------------------

/// The pieces of `s` between the occurrences of `sep`: one more than there are
/// occurrences.
pub open spec fn split_spec(s: Seq<char>, sep: char) -> Seq<Seq<char>>
    decreases s.len(),
{
    if s.len() == 0 {
        seq![Seq::<char>::empty()]
    } else {
        let before = split_spec(s.drop_last(), sep);
        if s.last() == sep {
            before.push(Seq::empty())
        } else {
            before.drop_last().push(before.last().push(s.last()))
        }
    }
}

/// There is always at least one piece.
pub proof fn lemma_split_nonempty(s: Seq<char>, sep: char)
    ensures
        split_spec(s, sep).len() >= 1,
    decreases s.len(),
{
    if s.len() > 0 {
        lemma_split_nonempty(s.drop_last(), sep);
    }
}

/// The first piece reaches to the first separator, or to the end.
pub proof fn lemma_split_first(s: Seq<char>, sep: char, n: int)
    requires
        0 <= n <= s.len(),
        n == s.len() || s[n] == sep,
        forall|i: int| 0 <= i < n ==> #[trigger] s[i] != sep,
    ensures
        split_spec(s, sep)[0] == s.take(n),
        n == s.len() ==> split_spec(s, sep).len() == 1,
    decreases s.len(),
{
    if s.len() > 0 {
        let front = s.drop_last();
        lemma_split_nonempty(front, sep);
        if n == s.len() {
            lemma_split_first(front, sep, n - 1);
            assert(s.last() == s[n - 1]);
            assert(front.take(n - 1).push(s.last()) =~= s.take(n));
        } else {
            lemma_split_first(front, sep, n);
            assert(front.take(n) =~= s.take(n));
            if s.last() != sep {
                lemma_split_two(front, sep, n);
            }
        }
    } else {
        assert(s.take(0) =~= Seq::empty());
    }
}

proof fn lemma_split_two(s: Seq<char>, sep: char, n: int)
    requires
        0 <= n < s.len(),
        s[n] == sep,
    ensures
        split_spec(s, sep).len() >= 2,
    decreases s.len(),
{
    let front = s.drop_last();
    lemma_split_nonempty(front, sep);
    if n < front.len() {
        lemma_split_two(front, sep, n);
    }
}

/// The pieces of `s` between the occurrences of `sep`.
pub fn split(s: &str, sep: char) -> (r: Vec<String>)
    ensures
        r.deep_view() == split_spec(s@, sep),
        r@.len() >= 1,
{
    let v = chars_of(s);
    let mut parts: Vec<String> = Vec::new();
    let mut cur = String::new();
    let mut i: usize = 0;
    assert(v@.take(0) =~= Seq::empty());
    assert(parts.deep_view().push(cur@) =~= seq![Seq::<char>::empty()]);
    while i < v.len()
        invariant
            i <= v@.len(),
            split_spec(v@.take(i as int), sep) == parts.deep_view().push(cur@),
        decreases v@.len() - i,
    {
        assert(v@.take(i + 1).drop_last() =~= v@.take(i as int));
        assert(parts.deep_view().push(cur@).drop_last() =~= parts.deep_view());
        if v[i] == sep {
            push_deep(&mut parts, cur);
            cur = String::new();
        } else {
            cur.push(v[i]);
        }
        i += 1;
    }
    assert(v@.take(i as int) =~= v@);
    push_deep(&mut parts, cur);
    parts
}

/// A line without the carriage return that stands before its line feed.
pub open spec fn without_return(line: Seq<char>) -> Seq<char> {
    if line.len() > 0 && line.last() == '\r' {
        line.drop_last()
    } else {
        line
    }
}

/// The lines of a text. A line ends with a line feed, with a carriage return
/// before it or not; the last may lack its end.
pub open spec fn lines_spec(s: Seq<char>) -> Seq<Seq<char>> {
    let parts = split_spec(s, '\n');
    let ended = parts.drop_last().map_values(|line: Seq<char>| without_return(line));
    if parts.last().len() == 0 {
        ended
    } else {
        ended.push(parts.last())
    }
}

/// The lines of a text.
pub fn lines(s: &str) -> (r: Vec<String>)
    ensures
        r.deep_view() == lines_spec(s@),
{
    let parts = split(s, '\n');
    let n = parts.len();
    let ghost p = parts.deep_view();
    let ghost ended = p.drop_last().map_values(|line: Seq<char>| without_return(line));
    let mut out: Vec<String> = Vec::new();
    assert(out.deep_view() =~= ended.take(0));
    let mut i: usize = 0;
    while i < n - 1
        invariant
            i <= n - 1,
            n == parts@.len(),
            p == parts.deep_view(),
            ended == p.drop_last().map_values(|line: Seq<char>| without_return(line)),
            out.deep_view() == ended.take(i as int),
        decreases n - i,
    {
        assert(p[i as int] == parts@[i as int]@);
        let line = match strip_suffix(&parts[i], "\r") {
            Some(line) => {
                proof {
                    reveal_strlit("\r");
                    assert(line@ =~= p[i as int].drop_last());
                    assert(p[i as int].last() == "\r"@[0]);
                }
                line
            },
            None => {
                proof {
                    reveal_strlit("\r");
                    if p[i as int].len() > 0 && p[i as int].last() == '\r' {
                        assert("\r"@ =~= p[i as int].skip(p[i as int].len() - 1));
                    }
                }
                parts[i].clone()
            },
        };
        assert(line@ == without_return(p[i as int]));
        push_deep(&mut out, line);
        i += 1;
        assert(out.deep_view() =~= ended.take(i as int));
    }
    assert(ended.take(i as int) =~= ended);
    assert(p.last() == parts@[n - 1]@);
    if !parts[n - 1].as_str().is_empty() {
        push_deep(&mut out, parts[n - 1].clone());
    }
    out
}

/// The texts joined, with `sep` between each two.
pub open spec fn join_spec(parts: Seq<Seq<char>>, sep: Seq<char>) -> Seq<char>
    decreases parts.len(),
{
    if parts.len() == 0 {
        Seq::empty()
    } else if parts.len() == 1 {
        parts[0]
    } else {
        join_spec(parts.drop_last(), sep) + sep + parts.last()
    }
}

/// Pieces without the separator come back from what they were joined to.
pub proof fn lemma_split_join(parts: Seq<Seq<char>>, sep: char)
    requires
        parts.len() > 0,
        forall|i: int| 0 <= i < parts.len() ==> !(#[trigger] parts[i]).contains(sep),
    ensures
        split_spec(join_spec(parts, seq![sep]), sep) == parts,
    decreases parts.len(),
{
    if parts.len() == 1 {
        assert(join_spec(parts, seq![sep]) =~= parts[0]);
        lemma_split_append(Seq::empty(), parts[0], sep);
        assert(Seq::<char>::empty() + parts[0] =~= parts[0]);
        assert(split_spec(parts[0], sep) =~= parts);
    } else {
        let front = parts.drop_last();
        let joined = join_spec(front, seq![sep]);
        assert forall|i: int| 0 <= i < front.len() implies !(#[trigger] front[i]).contains(sep) by {
            assert(front[i] == parts[i]);
        }
        lemma_split_join(front, sep);
        assert(joined.push(sep).drop_last() =~= joined);
        assert(split_spec(joined.push(sep), sep) =~= front.push(Seq::empty()));
        lemma_split_append(joined.push(sep), parts.last(), sep);
        assert(joined.push(sep) + parts.last() =~= join_spec(parts, seq![sep]));
        assert(front.push(Seq::<char>::empty()).drop_last() =~= front);
        assert(Seq::<char>::empty() + parts.last() =~= parts.last());
        assert(front.push(parts.last()) =~= parts);
    }
}

proof fn lemma_split_append(s: Seq<char>, tail: Seq<char>, sep: char)
    requires
        !tail.contains(sep),
    ensures
        split_spec(s + tail, sep) == split_spec(s, sep).drop_last().push(
            split_spec(s, sep).last() + tail,
        ),
    decreases tail.len(),
{
    lemma_split_nonempty(s, sep);
    if tail.len() == 0 {
        assert(s + tail =~= s);
        assert(split_spec(s, sep).last() + tail =~= split_spec(s, sep).last());
        assert(split_spec(s, sep) =~= split_spec(s, sep).drop_last().push(
            split_spec(s, sep).last(),
        ));
    } else {
        let front = tail.drop_last();
        assert forall|i: int| 0 <= i < front.len() implies front[i] != sep by {
            assert(tail[i] == front[i]);
            assert(tail.contains(tail[i]));
        }
        lemma_split_append(s, front, sep);
        assert(tail.contains(tail[tail.len() - 1]));
        assert((s + tail).drop_last() =~= s + front);
        let before = split_spec(s, sep).drop_last();
        let last = split_spec(s, sep).last();
        assert(before.push(last + front).drop_last() =~= before);
        assert((last + front).push(tail.last()) =~= last + tail);
    }
}

/// The texts joined, with `sep` between each two.
pub fn join(parts: &Vec<String>, sep: &str) -> (r: String)
    ensures
        r@ == join_spec(parts.deep_view(), sep@),
{
    let mut out = String::new();
    let mut i: usize = 0;
    while i < parts.len()
        invariant
            i <= parts@.len(),
            out@ == join_spec(parts.deep_view().take(i as int), sep@),
        decreases parts@.len() - i,
    {
        let ghost before = parts.deep_view().take(i as int);
        let ghost after = parts.deep_view().take(i + 1);
        assert(after.drop_last() =~= before);
        assert(after.last() == parts@[i as int]@);
        if i > 0 {
            out.append(sep);
        }
        out.append(parts[i].as_str());
        assert(out@ =~= join_spec(after, sep@));
        i += 1;
    }
    assert(parts.deep_view().take(i as int) =~= parts.deep_view());
    out
}

/// `a` followed by `b`.
pub fn cat2(a: &str, b: &str) -> (r: String)
    ensures
        r@ == a@ + b@,
{
    let mut out = owned(a);
    out.append(b);
    out
}

/// `a`, `b` and `c`, one after the other.
pub fn cat3(a: &str, b: &str, c: &str) -> (r: String)
    ensures
        r@ == a@ + b@ + c@,
{
    let mut out = cat2(a, b);
    out.append(c);
    out
}

/// `a`, `b`, `c` and `d`, one after the other.
pub fn cat4(a: &str, b: &str, c: &str, d: &str) -> (r: String)
    ensures
        r@ == a@ + b@ + c@ + d@,
{
    let mut out = cat3(a, b, c);
    out.append(d);
    out
}

/// `a` to `e`, one after the other.
pub fn cat5(a: &str, b: &str, c: &str, d: &str, e: &str) -> (r: String)
    ensures
        r@ == a@ + b@ + c@ + d@ + e@,
{
    let mut out = cat4(a, b, c, d);
    out.append(e);
    out
}

/// `a` to `g`, one after the other.
pub fn cat7(a: &str, b: &str, c: &str, d: &str, e: &str, f: &str, g: &str) -> (r: String)
    ensures
        r@ == a@ + b@ + c@ + d@ + e@ + f@ + g@,
{
    let mut out = cat5(a, b, c, d, e);
    out.append(f);
    out.append(g);
    out
}

// ---------------------------------------------------------------------------
// Replacing
// ---------------------------------------------------------------------------

/// `s` with each `from` replaced by the text `to`.
pub open spec fn replace_char_spec(s: Seq<char>, from: char, to: Seq<char>) -> Seq<char>
    decreases s.len(),
{
    if s.len() == 0 {
        Seq::empty()
    } else {
        let before = replace_char_spec(s.drop_last(), from, to);
        if s.last() == from {
            before + to
        } else {
            before.push(s.last())
        }
    }
}

/// `s` with each `from` replaced by the text `to`.
pub fn replace_char(s: &str, from: char, to: &str) -> (r: String)
    ensures
        r@ == replace_char_spec(s@, from, to@),
{
    let v = chars_of(s);
    let mut out = String::new();
    let mut i: usize = 0;
    while i < v.len()
        invariant
            i <= v@.len(),
            out@ == replace_char_spec(v@.take(i as int), from, to@),
        decreases v@.len() - i,
    {
        assert(v@.take(i + 1).drop_last() =~= v@.take(i as int));
        if v[i] == from {
            out.append(to);
        } else {
            out.push(v[i]);
        }
        i += 1;
    }
    assert(v@.take(i as int) =~= v@);
    out
}

/// `s` with the occurrences of `from`, taken from the left and not
/// overlapping, replaced by `to`, from position `at` on.
pub open spec fn replace_text_from(s: Seq<char>, from: Seq<char>, to: Seq<char>, at: int) -> Seq<
    char,
>
    decreases s.len() - at,
{
    if at < 0 || at >= s.len() || from.len() == 0 {
        Seq::empty()
    } else if stands_at(s, from, at) {
        to + replace_text_from(s, from, to, at + from.len())
    } else {
        seq![s[at]] + replace_text_from(s, from, to, at + 1)
    }
}

/// `s` with the occurrences of the non-empty text `from` replaced by `to`.
pub fn replace_text(s: &str, from: &str, to: &str) -> (r: String)
    requires
        from@.len() > 0,
    ensures
        r@ == replace_text_from(s@, from@, to@, 0),
{
    let v = chars_of(s);
    let f = chars_of(from);
    let mut out = String::new();
    let mut i: usize = 0;
    assert(out@ + replace_text_from(v@, f@, to@, 0) =~= replace_text_from(v@, f@, to@, 0));
    while i < v.len()
        invariant
            i <= v@.len(),
            f@.len() > 0,
            out@ + replace_text_from(v@, f@, to@, i as int) == replace_text_from(v@, f@, to@, 0),
        decreases v@.len() - i,
    {
        let ghost before = out@;
        if chars_stand_at(&v, &f, i) {
            out.append(to);
            assert(out@ + replace_text_from(v@, f@, to@, i + f@.len()) =~= before
                + replace_text_from(v@, f@, to@, i as int));
            i += f.len();
        } else {
            out.push(v[i]);
            assert(out@ + replace_text_from(v@, f@, to@, i + 1) =~= before + replace_text_from(
                v@,
                f@,
                to@,
                i as int,
            ));
            i += 1;
        }
    }
    assert(out@ + replace_text_from(v@, f@, to@, i as int) =~= out@);
    out
}

// ---------------------------------------------------------------------------
// Case
// ---------------------------------------------------------------------------

/// The ASCII capital letter for a small one; any other character itself.
pub open spec fn ascii_upper(c: char) -> char {
    if 'a' <= c && c <= 'z' {
        ((c as u32) - 32) as char
    } else {
        c
    }
}

/// Whether two texts are equal up to the case of ASCII letters.
pub open spec fn same_ignoring_ascii_case(a: Seq<char>, b: Seq<char>) -> bool {
    a.map_values(|c: char| ascii_upper(c)) == b.map_values(|c: char| ascii_upper(c))
}

/// The ASCII capital letter for a small one; any other character itself.
pub fn upper_char(c: char) -> (r: char)
    ensures
        r == ascii_upper(c),
{
    if 'a' <= c && c <= 'z' {
        ((c as u8) - 32) as char
    } else {
        c
    }
}

/// Whether two texts are equal up to the case of ASCII letters.
pub fn eq_ignore_ascii_case(a: &str, b: &str) -> (r: bool)
    ensures
        r == same_ignoring_ascii_case(a@, b@),
{
    let x = chars_of(a);
    let y = chars_of(b);
    let ghost ux = x@.map_values(|c: char| ascii_upper(c));
    let ghost uy = y@.map_values(|c: char| ascii_upper(c));
    if x.len() != y.len() {
        assert(ux.len() != uy.len());
        return false;
    }
    let mut i: usize = 0;
    while i < x.len()
        invariant
            i <= x@.len(),
            x@.len() == y@.len(),
            x@ == a@,
            y@ == b@,
            ux == x@.map_values(|c: char| ascii_upper(c)),
            uy == y@.map_values(|c: char| ascii_upper(c)),
            forall|j: int| 0 <= j < i ==> ascii_upper(x@[j]) == ascii_upper(y@[j]),
        decreases x@.len() - i,
    {
        if upper_char(x[i]) != upper_char(y[i]) {
            assert(ux[i as int] != uy[i as int]);
            return false;
        }
        i += 1;
    }
    assert(ux =~= uy);
    true
}

/// The ASCII small letter for a capital one; any other character itself.
pub open spec fn ascii_lower(c: char) -> char {
    if 'A' <= c && c <= 'Z' {
        ((c as u32) + 32) as char
    } else {
        c
    }
}

/// Whether every character of a text is ASCII.
pub open spec fn is_ascii_text(s: Seq<char>) -> bool {
    forall|i: int| 0 <= i < s.len() ==> (#[trigger] s[i]) as u32 <= 127
}

/// A text with each ASCII capital letter made small.
pub open spec fn ascii_lower_text(s: Seq<char>) -> Seq<char> {
    s.map_values(|c: char| ascii_lower(c))
}

/// A text with each ASCII small letter made a capital.
pub open spec fn ascii_upper_text(s: Seq<char>) -> Seq<char> {
    s.map_values(|c: char| ascii_upper(c))
}

/// What `str::to_lowercase` gives for a text.
pub uninterp spec fn unicode_lowercase(s: Seq<char>) -> Seq<char>;

/// What `str::to_uppercase` gives for a text.
pub uninterp spec fn unicode_uppercase(s: Seq<char>) -> Seq<char>;

/// The lower-case form of a text.
pub open spec fn lowercase_text(s: Seq<char>) -> Seq<char> {
    if is_ascii_text(s) {
        ascii_lower_text(s)
    } else {
        unicode_lowercase(s)
    }
}

/// The upper-case form of a text.
pub open spec fn uppercase_text(s: Seq<char>) -> Seq<char> {
    if is_ascii_text(s) {
        ascii_upper_text(s)
    } else {
        unicode_uppercase(s)
    }
}

/// `str::to_lowercase`: in an ASCII text each of `A` to `Z` becomes the small
/// letter and the rest is kept. Of any other text the Unicode lower-case form is
/// only named, [`unicode_lowercase`].
#[verifier::external_body]
pub(crate) fn to_lowercase(s: &str) -> (r: String)
    ensures
        r@ == (if is_ascii_text(s@) {
            ascii_lower_text(s@)
        } else {
            unicode_lowercase(s@)
        }),
{
    s.to_lowercase()
}

/// `str::to_uppercase`: in an ASCII text each of `a` to `z` becomes the capital
/// letter and the rest is kept. Of any other text the Unicode upper-case form is
/// only named, [`unicode_uppercase`].
#[verifier::external_body]
pub(crate) fn to_uppercase(s: &str) -> (r: String)
    ensures
        r@ == (if is_ascii_text(s@) {
            ascii_upper_text(s@)
        } else {
            unicode_uppercase(s@)
        }),
{
    s.to_uppercase()
}

// ---------------------------------------------------------------------------
// Order
// ---------------------------------------------------------------------------

/// The lexicographic order of texts by code point.
pub open spec fn text_le(a: Seq<char>, b: Seq<char>) -> bool
    decreases a.len(),
{
    if a.len() == 0 {
        true
    } else if b.len() == 0 {
        false
    } else if a[0] == b[0] {
        text_le(a.skip(1), b.skip(1))
    } else {
        a[0] < b[0]
    }
}

/// The order of texts is total.
pub proof fn lemma_text_le_total(a: Seq<char>, b: Seq<char>)
    ensures
        text_le(a, b) || text_le(b, a),
    decreases a.len(),
{
    if a.len() > 0 && b.len() > 0 && a[0] == b[0] {
        lemma_text_le_total(a.skip(1), b.skip(1));
    }
}

/// The order of texts is transitive.
pub proof fn lemma_text_le_transitive(a: Seq<char>, b: Seq<char>, c: Seq<char>)
    requires
        text_le(a, b),
        text_le(b, c),
    ensures
        text_le(a, c),
    decreases a.len(),
{
    if a.len() > 0 && b.len() > 0 && c.len() > 0 && a[0] == b[0] && b[0] == c[0] {
        lemma_text_le_transitive(a.skip(1), b.skip(1), c.skip(1));
    }
}

/// Two texts that are each at most the other are equal.
pub proof fn lemma_text_le_antisymmetric(a: Seq<char>, b: Seq<char>)
    requires
        text_le(a, b),
        text_le(b, a),
    ensures
        a == b,
    decreases a.len(),
{
    if a.len() > 0 && b.len() > 0 {
        lemma_text_le_antisymmetric(a.skip(1), b.skip(1));
        assert(a =~= seq![a[0]] + a.skip(1));
        assert(b =~= seq![b[0]] + b.skip(1));
    } else {
        assert(a =~= b);
    }
}

/// Whether `a` is at most `b` in the order of texts.
pub fn text_at_most(a: &str, b: &str) -> (r: bool)
    ensures
        r == text_le(a@, b@),
{
    let x = chars_of(a);
    let y = chars_of(b);
    let mut i: usize = 0;
    assert(x@.skip(0) =~= x@);
    assert(y@.skip(0) =~= y@);
    while i < x.len()
        invariant
            i <= x@.len(),
            i <= y@.len(),
            x@ == a@,
            y@ == b@,
            text_le(x@, y@) == text_le(x@.skip(i as int), y@.skip(i as int)),
        decreases x@.len() - i,
    {
        if i == y.len() {
            return false;
        }
        if x[i] != y[i] {
            return x[i] < y[i];
        }
        assert(x@.skip(i as int).skip(1) =~= x@.skip(i + 1));
        assert(y@.skip(i as int).skip(1) =~= y@.skip(i + 1));
        i += 1;
    }
    true
}

// ---------------------------------------------------------------------------
// Numbers
// ---------------------------------------------------------------------------

/// The decimal digit for a number below ten.
pub open spec fn digit(d: int) -> char {
    (48 + d) as char
}

/// A number in decimal.
pub open spec fn decimal(n: nat) -> Seq<char>
    decreases n,
{
    if n < 10 {
        seq![digit(n as int)]
    } else {
        decimal(n / 10).push(digit((n % 10) as int))
    }
}

/// The number in decimal.
pub fn decimal_text_wide(n: u128) -> (r: String)
    ensures
        r@ == decimal(n as nat),
    decreases n,
{
    let d: u8 = (n % 10) as u8;
    let c: char = (48u8 + d) as char;
    if n < 10 {
        let mut out = String::new();
        out.push(c);
        assert(out@ =~= seq![digit(n as int)]);
        out
    } else {
        let mut out = decimal_text_wide(n / 10);
        out.push(c);
        out
    }
}

/// The number in decimal.
pub fn decimal_text(n: u64) -> (r: String)
    ensures
        r@ == decimal(n as nat),
{
    decimal_text_wide(n as u128)
}

/// The value of a run of decimal digits; `None` where some character is not
/// one of the ten digits.
pub open spec fn decimal_value(s: Seq<char>) -> Option<nat>
    decreases s.len(),
{
    if s.len() == 0 {
        Some(0)
    } else {
        match decimal_value(s.drop_last()) {
            Some(n) if '0' <= s.last() && s.last() <= '9' => Some(
                (n * 10 + (s.last() as u32 - 48)) as nat,
            ),
            _ => None,
        }
    }
}

/// What an unsigned number of at most `max` parses from: an optional `+` and
/// then at least one digit.
pub open spec fn parse_unsigned_spec(s: Seq<char>, max: u64) -> Option<u64> {
    let t = if s.len() > 0 && s[0] == '+' {
        s.skip(1)
    } else {
        s
    };
    match decimal_value(t) {
        Some(n) if t.len() > 0 && n <= max => Some(n as u64),
        _ => None,
    }
}

proof fn lemma_decimal_value_grows(s: Seq<char>, k: int)
    requires
        0 <= k <= s.len(),
    ensures
        decimal_value(s) matches Some(n) ==> decimal_value(s.take(k)) matches Some(m) && m <= n,
    decreases s.len() - k,
{
    if k < s.len() {
        lemma_decimal_value_grows(s, k + 1);
        assert(s.take(k + 1).drop_last() =~= s.take(k));
    } else {
        assert(s.take(k) =~= s);
    }
}

/// Parses an unsigned number of at most `max`.
pub fn parse_unsigned(s: &str, max: u64) -> (r: Option<u64>)
    ensures
        r == parse_unsigned_spec(s@, max),
{
    let v = chars_of(s);
    let start: usize = if v.len() > 0 && v[0] == '+' { 1 } else { 0 };
    let ghost t = if s@.len() > 0 && s@[0] == '+' {
        s@.skip(1)
    } else {
        s@
    };
    assert(t =~= v@.skip(start as int));
    if start == v.len() {
        return None;
    }
    let mut n: u64 = 0;
    let mut i: usize = start;
    assert(t.take(0) =~= Seq::empty());
    while i < v.len()
        invariant
            start <= i <= v@.len(),
            v@ == s@,
            start == if s@.len() > 0 && s@[0] == '+' { 1int } else { 0int },
            t == v@.skip(start as int),
            t == if s@.len() > 0 && s@[0] == '+' {
                s@.skip(1)
            } else {
                s@
            },
            decimal_value(t.take(i - start)) == Some(n as nat),
            n <= max,
        decreases v@.len() - i,
    {
        let ghost k: int = i - start;
        assert(t.take(k + 1).drop_last() =~= t.take(k));
        assert(t.take(k + 1).last() == v@[i as int]);
        proof {
            lemma_decimal_value_grows(t, k + 1);
        }
        let c = v[i];
        if !('0' <= c && c <= '9') {
            return None;
        }
        let d: u64 = (c as u8 - 48) as u64;
        if d > max || n > (max - d) / 10 {
            assert(n * 10 + d > max);
            return None;
        }
        n = n * 10 + d;
        i += 1;
    }
    assert(t.take(i - start) =~= t);
    Some(n)
}

/// `s` cut at the last `sep`: what stands before it and what stands after.
pub open spec fn rsplit_once_spec(s: Seq<char>, sep: char) -> Option<(Seq<char>, Seq<char>)> {
    let i = last_index(s, sep);
    if i < 0 {
        None
    } else {
        Some((s.take(i), s.skip(i + 1)))
    }
}

/// Cuts at the last `sep`.
pub fn rsplit_once(s: &str, sep: char) -> (r: Option<(String, String)>)
    ensures
        r.deep_view() == rsplit_once_spec(s@, sep),
{
    let v = chars_of(s);
    proof {
        lemma_last_index(v@, sep);
    }
    match rfind_char(&v, sep) {
        Some(i) => {
            assert(i < v.len());
            let a = text_range(&v, 0, i);
            let b = text_range(&v, i + 1, v.len());
            assert(a@ =~= s@.take(i as int));
            assert(b@ =~= s@.skip(i + 1));
            Some((a, b))
        },
        None => None,
    }
}

/// Whether one of the texts is `s`.
pub open spec fn among(s: Seq<char>, texts: Seq<Seq<char>>) -> bool {
    texts.contains(s)
}

/// Whether one of the texts is `s`.
pub fn is_among(s: &str, texts: &Vec<String>) -> (r: bool)
    ensures
        r == among(s@, texts.deep_view()),
{
    let mut i: usize = 0;
    while i < texts.len()
        invariant
            i <= texts@.len(),
            forall|j: int| 0 <= j < i ==> texts@[j]@ != s@,
        decreases texts@.len() - i,
    {
        if same_text(texts[i].as_str(), s) {
            assert(texts.deep_view()[i as int] == s@);
            return true;
        }
        i += 1;
    }
    assert(forall|j: int| 0 <= j < texts.deep_view().len() ==> texts.deep_view()[j] != s@);
    false
}

// ---------------------------------------------------------------------------
// What a text does not hold
// ---------------------------------------------------------------------------

/// Replacing a character leaves out a character that is replaced or was not
/// there, unless it is put in.
pub proof fn lemma_replace_char_lacks(s: Seq<char>, from: char, to: Seq<char>, c: char)
    requires
        c == from || !s.contains(c),
        !to.contains(c),
    ensures
        !replace_char_spec(s, from, to).contains(c),
    decreases s.len(),
{
    if s.len() > 0 {
        let front = s.drop_last();
        assert(!s.contains(c) ==> !front.contains(c)) by {
            if front.contains(c) {
                let i = choose|i: int| 0 <= i < front.len() && front[i] == c;
                assert(s[i] == c);
            }
        }
        assert(!s.contains(c) ==> s.last() != c) by {
            assert(s[s.len() - 1] == s.last());
        }
        lemma_replace_char_lacks(front, from, to, c);
        let before = replace_char_spec(front, from, to);
        let after = replace_char_spec(s, from, to);
        if after.contains(c) {
            let i = choose|i: int| 0 <= i < after.len() && after[i] == c;
            if i < before.len() {
                assert(before[i] == c);
            } else if s.last() == from {
                assert(to[i - before.len()] == c);
            }
        }
    }
}

/// Replacing a text puts in no character that was not there.
pub proof fn lemma_replace_text_lacks(
    s: Seq<char>,
    from: Seq<char>,
    to: Seq<char>,
    at: int,
    c: char,
)
    requires
        !s.contains(c),
        !to.contains(c),
    ensures
        !replace_text_from(s, from, to, at).contains(c),
    decreases s.len() - at,
{
    if 0 <= at < s.len() && from.len() > 0 {
        let step = if stands_at(s, from, at) {
            at + from.len()
        } else {
            at + 1
        };
        lemma_replace_text_lacks(s, from, to, step, c);
        let rest = replace_text_from(s, from, to, step);
        let all = replace_text_from(s, from, to, at);
        if all.contains(c) {
            let i = choose|i: int| 0 <= i < all.len() && all[i] == c;
            let n = all.len() - rest.len();
            if i >= n {
                assert(rest[i - n] == c);
            } else if stands_at(s, from, at) {
                assert(to[i] == c);
            } else {
                assert(s[at] == c);
            }
        }
    }
}

/// Trimming puts in nothing.
pub proof fn lemma_trim_lacks(s: Seq<char>, c: char)
    requires
        !s.contains(c),
    ensures
        !trim_spec(s).contains(c),
{
    lemma_trim_start_lacks(s, c);
    lemma_trim_end_lacks(trim_start_spec(s), c);
}

proof fn lemma_trim_start_lacks(s: Seq<char>, c: char)
    requires
        !s.contains(c),
    ensures
        !trim_start_spec(s).contains(c),
    decreases s.len(),
{
    if s.len() > 0 && is_white_space(s[0]) {
        assert(!s.skip(1).contains(c)) by {
            if s.skip(1).contains(c) {
                let i = choose|i: int| 0 <= i < s.skip(1).len() && s.skip(1)[i] == c;
                assert(s[i + 1] == c);
            }
        }
        lemma_trim_start_lacks(s.skip(1), c);
    }
}

proof fn lemma_trim_end_lacks(s: Seq<char>, c: char)
    requires
        !s.contains(c),
    ensures
        !trim_end_spec(s).contains(c),
    decreases s.len(),
{
    if s.len() > 0 && is_white_space(s.last()) {
        assert(!s.drop_last().contains(c)) by {
            if s.drop_last().contains(c) {
                let i = choose|i: int| 0 <= i < s.drop_last().len() && s.drop_last()[i] == c;
                assert(s[i] == c);
            }
        }
        lemma_trim_end_lacks(s.drop_last(), c);
    }
}

} // verus!
