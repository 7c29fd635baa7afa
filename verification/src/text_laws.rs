//! What holds of texts: trimming, numbers, order, pieces and lines.

use vstd::prelude::*;

use crate::{sorting, text};

verus! {

/// Whether a text is nothing but white space.
pub open spec fn is_blank(s: Seq<char>) -> bool {
    forall|i: int| 0 <= i < s.len() ==> text::is_white_space(#[trigger] s[i])
}

/// Whether a text is not empty and has no white space at either end.
pub open spec fn is_tight(s: Seq<char>) -> bool {
    s.len() > 0 && !text::is_white_space(s[0]) && !text::is_white_space(s[s.len() - 1])
}

proof fn lemma_trim_start(a: Seq<char>, s: Seq<char>)
    requires
        is_blank(a),
        s.len() == 0 || !text::is_white_space(s[0]),
    ensures
        text::trim_start_spec(a + s) == s,
    decreases a.len(),
{
    if a.len() == 0 {
        assert(a + s =~= s);
    } else {
        assert((a + s)[0] == a[0]);
        assert((a + s).skip(1) =~= a.skip(1) + s);
        lemma_trim_start(a.skip(1), s);
    }
}

proof fn lemma_trim_end(s: Seq<char>, b: Seq<char>)
    requires
        is_blank(b),
        s.len() == 0 || !text::is_white_space(s[s.len() - 1]),
    ensures
        text::trim_end_spec(s + b) == s,
    decreases b.len(),
{
    if b.len() == 0 {
        assert(s + b =~= s);
    } else {
        assert((s + b).last() == b[b.len() - 1]);
        assert((s + b).drop_last() =~= s + b.drop_last());
        assert forall|i: int| 0 <= i < b.drop_last().len() implies text::is_white_space(
            #[trigger] b.drop_last()[i],
        ) by {
            assert(b[i] == b.drop_last()[i]);
        }
        lemma_trim_end(s, b.drop_last());
    }
}

/// Trimming takes off just the white space at the ends.
pub proof fn law_trim(a: Seq<char>, s: Seq<char>, b: Seq<char>)
    requires
        is_blank(a),
        is_tight(s),
        is_blank(b),
    ensures
        text::trim_spec(a + s + b) == s,
{
    assert(a + s + b =~= a + (s + b));
    lemma_trim_start(a, s + b);
    lemma_trim_end(s, b);
}

/// Nothing is left of a blank text.
pub proof fn law_trim_blank(a: Seq<char>)
    requires
        is_blank(a),
    ensures
        text::trim_spec(a) == Seq::<char>::empty(),
{
    lemma_trim_start(a, Seq::empty());
    assert(a + Seq::<char>::empty() =~= a);
}

/// Two texts are the same up to the case of ASCII letters exactly where they are
/// as long, and in each place the characters are equal, or one is the capital of
/// the other.
pub proof fn law_ascii_case(a: Seq<char>, b: Seq<char>)
    ensures
        text::same_ignoring_ascii_case(a, b) <==> a.len() == b.len() && forall|i: int|
            0 <= i < a.len() ==> (#[trigger] a[i]) == b[i] || ('a' <= a[i] <= 'z' && a[i] as u32
                == b[i] as u32 + 32) || ('a' <= b[i] <= 'z' && b[i] as u32 == a[i] as u32 + 32),
{
    let ua = a.map_values(|c: char| text::ascii_upper(c));
    let ub = b.map_values(|c: char| text::ascii_upper(c));
    if text::same_ignoring_ascii_case(a, b) {
        assert(ua.len() == ub.len());
        assert forall|i: int| 0 <= i < a.len() implies (#[trigger] a[i]) == b[i] || ('a' <= a[i]
            <= 'z' && a[i] as u32 == b[i] as u32 + 32) || ('a' <= b[i] <= 'z' && b[i] as u32
            == a[i] as u32 + 32) by {
            assert(ua[i] == ub[i]);
        }
    }
    if a.len() == b.len() && forall|i: int|
        0 <= i < a.len() ==> (#[trigger] a[i]) == b[i] || ('a' <= a[i] <= 'z' && a[i] as u32
            == b[i] as u32 + 32) || ('a' <= b[i] <= 'z' && b[i] as u32 == a[i] as u32 + 32) {
        assert forall|i: int| 0 <= i < ua.len() implies ua[i] == ub[i] by {
            assert(a[i] == b[i] || ('a' <= a[i] <= 'z' && a[i] as u32 == b[i] as u32 + 32) || ('a'
                <= b[i] <= 'z' && b[i] as u32 == a[i] as u32 + 32));
        }
        assert(ua =~= ub);
    }
}

/// A number in decimal is read back as it was.
pub proof fn law_decimal_read_back(n: nat)
    ensures
        text::decimal_value(text::decimal(n)) == Some(n),
        text::decimal(n).len() > 0,
        forall|i: int|
            0 <= i < text::decimal(n).len() ==> '0' <= #[trigger] text::decimal(n)[i] <= '9',
    decreases n,
{
    let d = text::decimal(n);
    if n < 10 {
        assert(d =~= seq![text::digit(n as int)]);
        assert(d.drop_last() =~= Seq::empty());
        assert(text::decimal_value(d.drop_last()) == Some(0nat));
        assert(d.last() as u32 - 48 == n);
    } else {
        law_decimal_read_back(n / 10);
        assert(d.drop_last() =~= text::decimal(n / 10));
        assert(d.last() == text::digit((n % 10) as int));
        assert(10 * (n / 10) + n % 10 == n);
    }
}

/// A number below ten is its digit, and another number is written as its tens
/// followed by its last digit.
pub proof fn law_decimal_digits(n: nat, d: nat)
    requires
        d < 10,
    ensures
        text::decimal(d).len() == 1,
        text::decimal(d)[0] as u32 == '0' as u32 + d,
        n > 0 ==> text::decimal(10 * n + d) == text::decimal(n) + text::decimal(d),
{
    if n > 0 {
        assert((10 * n + d) / 10 == n);
        assert((10 * n + d) % 10 == d);
        assert(text::decimal(10 * n + d) =~= text::decimal(n) + text::decimal(d));
    }
}

/// Texts are in the order of the first characters in which they differ, and a
/// text comes before what it is continued to.
pub proof fn law_order_of_texts(
    start: Seq<char>,
    a: char,
    x: Seq<char>,
    b: char,
    y: Seq<char>,
)
    ensures
        a < b ==> text::text_le(start + (seq![a] + x), start + (seq![b] + y)),
        a < b ==> !text::text_le(start + (seq![b] + y), start + (seq![a] + x)),
        text::text_le(start, start + (seq![a] + x)),
        !text::text_le(start + (seq![a] + x), start),
    decreases start.len(),
{
    let p = start + (seq![a] + x);
    let q = start + (seq![b] + y);
    if start.len() == 0 {
        assert(p[0] == a);
        assert(q[0] == b);
    } else {
        let rest = start.skip(1);
        law_order_of_texts(rest, a, x, b, y);
        assert(p.skip(1) =~= rest + (seq![a] + x));
        assert(q.skip(1) =~= rest + (seq![b] + y));
        assert(p[0] == start[0] && q[0] == start[0]);
    }
}

/// Keys are in the order of the first texts in which they differ.
pub proof fn law_order_of_keys(
    start: Seq<Seq<char>>,
    a: Seq<char>,
    x: Seq<Seq<char>>,
    b: Seq<char>,
    y: Seq<Seq<char>>,
)
    requires
        a != b,
    ensures
        sorting::key_le(start + (seq![a] + x), start + (seq![b] + y)) == text::text_le(a, b),
        sorting::key_le(start, start + (seq![a] + x)),
        !sorting::key_le(start + (seq![a] + x), start),
    decreases start.len(),
{
    let p = start + (seq![a] + x);
    let q = start + (seq![b] + y);
    if start.len() == 0 {
        assert(p[0] == a);
        assert(q[0] == b);
    } else {
        let rest = start.skip(1);
        law_order_of_keys(rest, a, x, b, y);
        assert(p.skip(1) =~= rest + (seq![a] + x));
        assert(q.skip(1) =~= rest + (seq![b] + y));
        assert(p[0] == start[0] && q[0] == start[0]);
    }
}

/// Joined texts stand behind one another with the separator between each two.
pub proof fn law_joined(parts: Seq<Seq<char>>, last: Seq<char>, sep: Seq<char>)
    ensures
        text::join_spec(seq![last], sep) == last,
        parts.len() > 0 ==> text::join_spec(parts.push(last), sep) == text::join_spec(parts, sep)
            + sep + last,
{
    assert(parts.push(last).drop_last() =~= parts);
}

/// A text in which the separator does not stand is one piece, and a separator
/// begins another.
pub proof fn law_split(a: Seq<char>, sep: char, b: Seq<char>)
    requires
        !a.contains(sep),
        !b.contains(sep),
    ensures
        text::split_spec(a, sep) == seq![a],
        text::split_spec(a + seq![sep] + b, sep) == seq![a, b],
{
    let one = seq![a];
    let two = seq![a, b];
    text::lemma_split_join(one, sep);
    text::lemma_split_join(two, sep);
    assert(two.drop_last() =~= one);
    assert(text::join_spec(one, seq![sep]) == a);
    assert(text::join_spec(two, seq![sep]) == a + seq![sep] + b);
}

/// Lines end with a line feed, with or without a carriage return before it; the
/// end of the text ends the last line too.
pub proof fn law_lines(a: Seq<char>, b: Seq<char>)
    requires
        !a.contains('\n'),
        !b.contains('\n'),
        a.len() == 0 || a[a.len() - 1] != '\r',
        b.len() > 0,
    ensures
        text::lines_spec(a + seq!['\n'] + b) == seq![a, b],
        text::lines_spec(a + seq!['\r'] + seq!['\n'] + b) == seq![a, b],
        text::lines_spec(a + seq!['\n']) == seq![a],
{
    law_split(a, '\n', b);
    let c = a + seq!['\r'];
    assert(!c.contains('\n')) by {
        if c.contains('\n') {
            let i = choose|i: int| 0 <= i < c.len() && c[i] == '\n';
            assert(a[i] == '\n');
        }
    }
    law_split(c, '\n', b);
    let none = Seq::<char>::empty();
    law_split(a, '\n', none);
    assert(a + seq!['\n'] + none =~= a + seq!['\n']);
    assert(c.drop_last() =~= a);
    assert(text::lines_spec(a + seq!['\n'] + b) =~= seq![a, b]);
    assert(text::lines_spec(c + seq!['\n'] + b) =~= seq![a, b]);
    assert(text::lines_spec(a + seq!['\n']) =~= seq![a]);
}

} // verus!
