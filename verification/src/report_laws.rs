//! What holds of the report: each finding stands in it, in words of its own.

use vstd::prelude::*;

use crate::analyzer::ApiAnalysisResult;
use crate::findings::{EndpointRef, Finding, PackageVersionRef, PrDelta, Topology};
use crate::{formatter, text};

verus! {

// ---------------------------------------------------------------------------
// Parts of a text
// ---------------------------------------------------------------------------

/// Whether a text holds another.
pub open spec fn holds(whole: Seq<char>, part: Seq<char>) -> bool {
    exists|a: Seq<char>, b: Seq<char>| whole == #[trigger] ((a + part) + b)
}

proof fn lemma_holds(a: Seq<char>, part: Seq<char>, b: Seq<char>)
    ensures
        holds(a + part + b, part),
{
    assert((a + part) + b == a + part + b);
}

pub proof fn lemma_holds_in_sum(left: Seq<char>, right: Seq<char>, part: Seq<char>)
    requires
        holds(left, part) || holds(right, part),
    ensures
        holds(left + right, part),
{
    if holds(left, part) {
        let (a, b) = choose|a: Seq<char>, b: Seq<char>| left == #[trigger] ((a + part) + b);
        assert(left + right =~= (a + part) + (b + right));
    } else {
        let (a, b) = choose|a: Seq<char>, b: Seq<char>| right == #[trigger] ((a + part) + b);
        assert(left + right =~= ((left + a) + part) + b);
    }
}

proof fn lemma_holds_itself(part: Seq<char>)
    ensures
        holds(part, part),
{
    let none = Seq::<char>::empty();
    assert(part =~= (none + part) + none);
}

proof fn lemma_holds_through(whole: Seq<char>, middle: Seq<char>, part: Seq<char>)
    requires
        holds(whole, middle),
        holds(middle, part),
    ensures
        holds(whole, part),
{
    let (a, b) = choose|a: Seq<char>, b: Seq<char>| whole == #[trigger] ((a + middle) + b);
    lemma_holds_in_sum(a, middle, part);
    lemma_holds_in_sum(a + middle, b, part);
}

// ---------------------------------------------------------------------------
// Escaping
// ---------------------------------------------------------------------------

/// A text on one line: a blank for each line break, and one for both characters
/// of `\r\n`.
pub open spec fn flat(s: Seq<char>) -> Seq<char>
    decreases s.len(),
{
    if s.len() == 0 {
        Seq::empty()
    } else if s.len() >= 2 && s[s.len() - 1] == '\n' && s[s.len() - 2] == '\r' {
        flat(s.take(s.len() - 2)).push(' ')
    } else if s[s.len() - 1] == '\n' || s[s.len() - 1] == '\r' {
        flat(s.take(s.len() - 1)).push(' ')
    } else {
        flat(s.take(s.len() - 1)).push(s[s.len() - 1])
    }
}

/// A text in a table: on one line, with a backslash before each pipe.
pub open spec fn escaped(s: Seq<char>) -> Seq<char>
    decreases s.len(),
{
    if s.len() == 0 {
        Seq::empty()
    } else if s.len() >= 2 && s[s.len() - 1] == '\n' && s[s.len() - 2] == '\r' {
        escaped(s.take(s.len() - 2)).push(' ')
    } else if s[s.len() - 1] == '\n' || s[s.len() - 1] == '\r' {
        escaped(s.take(s.len() - 1)).push(' ')
    } else if s[s.len() - 1] == '|' {
        escaped(s.take(s.len() - 1)).push('\\').push('|')
    } else {
        escaped(s.take(s.len() - 1)).push(s[s.len() - 1])
    }
}

/// A text without its backticks.
pub open spec fn without_ticks(s: Seq<char>) -> Seq<char> {
    s.filter(|c: char| c != '`')
}

/// A text as inline code in a table.
pub open spec fn in_table(s: Seq<char>) -> Seq<char> {
    without_ticks(text::trim_spec(escaped(s)))
}

/// A text as inline code in prose.
pub open spec fn in_prose(s: Seq<char>) -> Seq<char> {
    text::trim_spec(without_ticks(flat(s)))
}

proof fn lemma_crlf_stands(s: Seq<char>, at: int)
    ensures
        text::stands_at(s, "\r\n"@, at) <==> 0 <= at && at + 2 <= s.len() && s[at] == '\r' && s[at
            + 1] == '\n',
{
    reveal_strlit("\r\n");
    if text::stands_at(s, "\r\n"@, at) {
        assert(s.subrange(at, at + 2)[0] == "\r\n"@[0]);
        assert(s.subrange(at, at + 2)[1] == "\r\n"@[1]);
    }
    if 0 <= at && at + 2 <= s.len() && s[at] == '\r' && s[at + 1] == '\n' {
        assert(s.subrange(at, at + 2) =~= "\r\n"@);
    }
}

proof fn lemma_replace_before(t: Seq<char>, c: char, at: int)
    requires
        0 <= at <= t.len(),
        !(c == '\n' && t.len() > 0 && t[t.len() - 1] == '\r' && at < t.len()),
    ensures
        text::replace_text_from(t.push(c), "\r\n"@, " "@, at) == text::replace_text_from(
            t,
            "\r\n"@,
            " "@,
            at,
        ).push(c),
    decreases t.len() - at,
{
    reveal_strlit("\r\n");
    reveal_strlit(" ");
    let s = t.push(c);
    lemma_crlf_stands(s, at);
    lemma_crlf_stands(t, at);
    let crlf = "\r\n"@;
    if at == t.len() {
        assert(text::replace_text_from(s, crlf, " "@, at + 1) =~= Seq::empty());
        assert(text::replace_text_from(s, crlf, " "@, at) =~= seq![c]);
        assert(text::replace_text_from(t, crlf, " "@, at).push(c) =~= seq![c]);
    } else if text::stands_at(s, crlf, at) {
        assert(at + 2 <= t.len());
        assert(s[at] == t[at] && s[at + 1] == t[at + 1]);
        lemma_replace_before(t, c, at + 2);
        assert(text::replace_text_from(s, crlf, " "@, at) =~= text::replace_text_from(
            t,
            crlf,
            " "@,
            at,
        ).push(c));
    } else {
        assert(!text::stands_at(t, crlf, at)) by {
            if text::stands_at(t, crlf, at) {
                assert(s[at] == t[at] && s[at + 1] == t[at + 1]);
            }
        }
        lemma_replace_before(t, c, at + 1);
        assert(text::replace_text_from(s, crlf, " "@, at) =~= text::replace_text_from(
            t,
            crlf,
            " "@,
            at,
        ).push(c));
    }
}

proof fn lemma_replace_break(t: Seq<char>, at: int)
    requires
        0 <= at <= t.len(),
    ensures
        text::replace_text_from(t.push('\r').push('\n'), "\r\n"@, " "@, at)
            == text::replace_text_from(t, "\r\n"@, " "@, at).push(' '),
    decreases t.len() - at,
{
    reveal_strlit("\r\n");
    reveal_strlit(" ");
    let s = t.push('\r').push('\n');
    let crlf = "\r\n"@;
    lemma_crlf_stands(s, at);
    lemma_crlf_stands(t, at);
    if at == t.len() {
        assert(text::replace_text_from(s, crlf, " "@, at + 2) =~= Seq::empty());
        assert(text::replace_text_from(s, crlf, " "@, at) =~= seq![' ']);
        assert(text::replace_text_from(t, crlf, " "@, at).push(' ') =~= seq![' ']);
    } else if text::stands_at(s, crlf, at) {
        assert(s[t.len() as int] == '\r');
        assert(at + 2 <= t.len());
        assert(s[at] == t[at] && s[at + 1] == t[at + 1]);
        lemma_replace_break(t, at + 2);
        assert(text::replace_text_from(s, crlf, " "@, at) =~= text::replace_text_from(
            t,
            crlf,
            " "@,
            at,
        ).push(' '));
    } else {
        assert(!text::stands_at(t, crlf, at)) by {
            if text::stands_at(t, crlf, at) {
                assert(s[at] == t[at] && s[at + 1] == t[at + 1]);
            }
        }
        lemma_replace_break(t, at + 1);
        assert(text::replace_text_from(s, crlf, " "@, at) =~= text::replace_text_from(
            t,
            crlf,
            " "@,
            at,
        ).push(' '));
    }
}

proof fn lemma_replace_pushed(x: Seq<char>, c: char, from: char, to: Seq<char>)
    ensures
        c != from ==> text::replace_char_spec(x.push(c), from, to) == text::replace_char_spec(
            x,
            from,
            to,
        ).push(c),
        c == from ==> text::replace_char_spec(x.push(c), from, to) == text::replace_char_spec(
            x,
            from,
            to,
        ) + to,
{
    assert(x.push(c).drop_last() =~= x);
}

proof fn lemma_one_line(s: Seq<char>)
    ensures
        formatter::one_line(s) == flat(s),
    decreases s.len(),
{
    reveal_strlit("\r\n");
    reveal_strlit(" ");
    let crlf = "\r\n"@;
    let blank = " "@;
    assert(blank =~= seq![' ']);
    if s.len() == 0 {
        assert(text::replace_text_from(s, crlf, blank, 0) =~= Seq::empty());
    } else if s.len() >= 2 && s[s.len() - 1] == '\n' && s[s.len() - 2] == '\r' {
        let t = s.take(s.len() - 2);
        lemma_one_line(t);
        assert(t.push('\r').push('\n') =~= s);
        lemma_replace_break(t, 0);
        let a = text::replace_text_from(t, crlf, blank, 0);
        let b = text::replace_char_spec(a, '\r', blank);
        lemma_replace_pushed(a, ' ', '\r', blank);
        lemma_replace_pushed(b, ' ', '\n', blank);
    } else {
        let t = s.take(s.len() - 1);
        let c = s[s.len() - 1];
        lemma_one_line(t);
        assert(t.push(c) =~= s);
        if t.len() > 0 {
            assert(t[t.len() - 1] == s[s.len() - 2]);
        }
        lemma_replace_before(t, c, 0);
        let a = text::replace_text_from(t, crlf, blank, 0);
        let b = text::replace_char_spec(a, '\r', blank);
        let d = text::replace_char_spec(b, '\n', blank);
        lemma_replace_pushed(a, c, '\r', blank);
        lemma_replace_pushed(b, c, '\n', blank);
        lemma_replace_pushed(b, ' ', '\n', blank);
        assert(b + blank =~= b.push(' '));
        assert(d + blank =~= d.push(' '));
    }
}

proof fn lemma_flat_pushed(t: Seq<char>, c: char)
    ensures
        c != '\n' && c != '\r' ==> flat(t.push(c)) == flat(t).push(c),
        c == '\r' ==> flat(t.push(c)) == flat(t).push(' '),
        c == '\n' && (t.len() == 0 || t[t.len() - 1] != '\r') ==> flat(t.push(c)) == flat(t).push(
            ' ',
        ),
        flat(t.push('\r').push('\n')) == flat(t).push(' '),
{
    assert(t.push(c).take(t.len() as int) =~= t);
    let s = t.push('\r').push('\n');
    assert(s.take(s.len() - 2) =~= t);
}

proof fn lemma_escaped(s: Seq<char>)
    ensures
        flat(text::replace_char_spec(s, '|', "\\|"@)) == escaped(s),
        s.len() > 0 ==> ({
            let r = text::replace_char_spec(s, '|', "\\|"@);
            r.len() > 0 && r[r.len() - 1] == s[s.len() - 1]
        }),
    decreases s.len(),
{
    reveal_strlit("\\|");
    let to = "\\|"@;
    assert(to =~= seq!['\\', '|']);
    if s.len() > 0 {
        let t = s.take(s.len() - 1);
        let c = s[s.len() - 1];
        assert(t.push(c) =~= s);
        lemma_escaped(t);
        lemma_replace_pushed(t, c, '|', to);
        let x = text::replace_char_spec(t, '|', to);
        if c == '|' {
            assert(x + to =~= x.push('\\').push('|'));
            lemma_flat_pushed(x, '\\');
            lemma_flat_pushed(x.push('\\'), '|');
        } else if s.len() >= 2 && c == '\n' && s[s.len() - 2] == '\r' {
            let u = s.take(s.len() - 2);
            assert(u.push('\r') =~= t);
            lemma_escaped(u);
            lemma_replace_pushed(u, '\r', '|', to);
            lemma_flat_pushed(text::replace_char_spec(u, '|', to), '\r');
        } else {
            if t.len() > 0 {
                assert(t[t.len() - 1] == s[s.len() - 2]);
            } else {
                assert(x =~= Seq::empty());
            }
            lemma_flat_pushed(x, c);
        }
    } else {
        assert(text::replace_char_spec(s, '|', to) =~= Seq::empty());
    }
}

proof fn lemma_ticks_removed(s: Seq<char>)
    ensures
        text::replace_char_spec(s, '`', ""@) == without_ticks(s),
    decreases s.len(),
{
    reveal_strlit("");
    reveal(Seq::filter);
    let keep = |c: char| c != '`';
    if s.len() > 0 {
        lemma_ticks_removed(s.drop_last());
        let before = text::replace_char_spec(s.drop_last(), '`', ""@);
        assert(before + ""@ =~= before);
        assert(s.drop_last().filter(keep) == before);
    }
}

proof fn lemma_cells(s: Seq<char>)
    ensures
        formatter::cell_spec(s) == text::trim_spec(escaped(s)),
        formatter::code_cell_spec(s) == in_table(s),
        formatter::code_span_spec(s) == in_prose(s),
{
    lemma_escaped(s);
    lemma_one_line(text::replace_char_spec(s, '|', "\\|"@));
    lemma_one_line(s);
    lemma_ticks_removed(formatter::cell_spec(s));
    lemma_ticks_removed(flat(s));
}

proof fn lemma_escaped_sum(a: Seq<char>, b: Seq<char>)
    requires
        b.len() == 0 || b[0] != '\n',
    ensures
        escaped(a + b) == escaped(a) + escaped(b),
    decreases b.len(),
{
    let s = a + b;
    if b.len() == 0 {
        assert(s =~= a);
        assert(escaped(a) + escaped(b) =~= escaped(a));
    } else if b.len() >= 2 && b[b.len() - 1] == '\n' && b[b.len() - 2] == '\r' {
        let c = b.take(b.len() - 2);
        assert(s.take(s.len() - 2) =~= a + c);
        lemma_escaped_sum(a, c);
        assert(escaped(s) =~= escaped(a) + escaped(b));
    } else {
        let c = b.take(b.len() - 1);
        assert(s.take(s.len() - 1) =~= a + c);
        assert(s[s.len() - 1] == b[b.len() - 1]);
        if b.len() >= 2 {
            assert(s[s.len() - 2] == b[b.len() - 2]);
        }
        lemma_escaped_sum(a, c);
        assert(escaped(s) =~= escaped(a) + escaped(b));
    }
}

/// Whether a text has nothing to be escaped.
pub open spec fn is_plain(s: Seq<char>) -> bool {
    forall|i: int| 0 <= i < s.len() ==> (#[trigger] s[i]) != '|' && s[i] != '\n' && s[i] != '\r'
}

proof fn lemma_escaped_plain(s: Seq<char>)
    requires
        is_plain(s),
    ensures
        escaped(s) == s,
    decreases s.len(),
{
    if s.len() > 0 {
        let t = s.take(s.len() - 1);
        assert forall|i: int| 0 <= i < t.len() implies (#[trigger] t[i]) != '|' && t[i] != '\n'
            && t[i] != '\r' by {
            assert(s[i] == t[i]);
        }
        lemma_escaped_plain(t);
        assert(s[s.len() - 1] != '|');
        assert(t.push(s[s.len() - 1]) =~= s);
    }
}

proof fn lemma_trim_end_behind(a: Seq<char>, b: Seq<char>)
    requires
        a.len() > 0,
        !text::is_white_space(a[a.len() - 1]),
    ensures
        text::trim_end_spec(a + b) == a + text::trim_end_spec(b),
    decreases b.len(),
{
    let s = a + b;
    if b.len() == 0 {
        assert(s =~= a);
        assert(a + text::trim_end_spec(b) =~= a);
    } else {
        assert(s.last() == b.last());
        if text::is_white_space(b.last()) {
            assert(s.drop_last() =~= a + b.drop_last());
            lemma_trim_end_behind(a, b.drop_last());
        }
    }
}

// ---------------------------------------------------------------------------
// Contract risks
// ---------------------------------------------------------------------------

/// The row of a type that does not fit: the operation, the producer's type, the
/// consumer's type and what is wrong.
pub open spec fn type_row(
    method: Seq<char>,
    path: Seq<char>,
    producer_type: Seq<char>,
    consumer_type: Seq<char>,
    detail: Seq<char>,
) -> Seq<char> {
    "| `"@ + text::trim_spec(escaped(method + " "@ + path)) + "` | producer `"@ + escaped(
        producer_type,
    ) + "` vs consumer `"@ + escaped(consumer_type) + "`:"@ + text::trim_end_spec(
        " "@ + escaped(detail),
    ) + " |\n"@
}

/// The row of a method that does not fit: the operation, the method of the call
/// and that of the producer.
pub open spec fn method_row(
    method: Seq<char>,
    path: Seq<char>,
    expected_method: Seq<char>,
) -> Seq<char> {
    "| `"@ + text::trim_spec(escaped(method + " "@ + path)) + "` | call uses `"@ + escaped(method)
        + "` but the producer expects `"@ + escaped(expected_method) + "` |\n"@
}

/// The row of a contract risk; nothing for another finding.
pub open spec fn risk_row(f: Finding) -> Seq<char> {
    match f {
        Finding::TypeMismatch { method, path, producer_type, consumer_type, detail, .. } => type_row(
            method@,
            path@,
            producer_type@,
            consumer_type@,
            detail@,
        ),
        Finding::MethodMismatch { method, path, expected_method, .. } => method_row(
            method@,
            path@,
            expected_method@,
        ),
        _ => Seq::empty(),
    }
}

proof fn lemma_type_detail(p: Seq<char>, c: Seq<char>, d: Seq<char>)
    ensures
        text::trim_spec(
            escaped("producer `"@ + p + "` vs consumer `"@ + c + "`: "@ + d),
        ) == "producer `"@ + escaped(p) + "` vs consumer `"@ + escaped(c) + "`:"@
            + text::trim_end_spec(" "@ + escaped(d)),
{
    reveal_strlit("producer `");
    reveal_strlit("` vs consumer `");
    reveal_strlit("`: ");
    reveal_strlit("`:");
    reveal_strlit(" ");
    let l1 = "producer `"@;
    let l2 = "` vs consumer `"@;
    let l3 = "`: "@;
    lemma_escaped_plain(l1);
    lemma_escaped_plain(l2);
    lemma_escaped_plain(l3);
    let s1 = l1 + p;
    let s2 = s1 + l2;
    let s3 = s2 + c;
    let s4 = s3 + l3;
    // The texts from the back: none that is joined on begins inside a line break.
    lemma_join_escaped(l1, p, l2);
    lemma_join_escaped(s2, c, l3);
    lemma_escaped_behind(s4, d);
    let all = escaped(s4 + d);
    assert(all == escaped(s4) + escaped(d));
    assert(escaped(s4) == escaped(s2) + escaped(c) + l3);
    assert(escaped(s2) == l1 + escaped(p) + l2);
    let front = l1 + escaped(p) + l2 + escaped(c) + "`:"@;
    let back = " "@ + escaped(d);
    assert(all =~= front + back);
    assert(front[0] == 'p');
    assert((front + back)[0] == 'p');
    assert(front[front.len() - 1] == ':');
    assert(text::trim_start_spec(all) == all);
    lemma_trim_end_behind(front, back);
}

/// A text between two that have no line break at the joints.
proof fn lemma_join_escaped(a: Seq<char>, b: Seq<char>, c: Seq<char>)
    requires
        a.len() > 0,
        a[a.len() - 1] == '`',
        c.len() > 0,
        c[0] != '\n',
    ensures
        escaped(a + b + c) == escaped(a) + escaped(b) + escaped(c),
{
    lemma_escaped_sum(a + b, c);
    lemma_escaped_behind(a, b);
}

proof fn lemma_escaped_behind(a: Seq<char>, b: Seq<char>)
    requires
        a.len() > 0,
        a[a.len() - 1] == '`' || a[a.len() - 1] == ' ',
    ensures
        escaped(a + b) == escaped(a) + escaped(b),
    decreases b.len(),
{
    let s = a + b;
    if b.len() == 0 {
        assert(s =~= a);
        assert(escaped(a) + escaped(b) =~= escaped(a));
    } else if b.len() >= 2 && b[b.len() - 1] == '\n' && b[b.len() - 2] == '\r' {
        let c = b.take(b.len() - 2);
        assert(s.take(s.len() - 2) =~= a + c);
        lemma_escaped_behind(a, c);
        assert(escaped(s) =~= escaped(a) + escaped(b));
    } else {
        let c = b.take(b.len() - 1);
        assert(s.take(s.len() - 1) =~= a + c);
        assert(s[s.len() - 1] == b[b.len() - 1]);
        if b.len() >= 2 {
            assert(s[s.len() - 2] == b[b.len() - 2]);
        } else {
            assert(s[s.len() - 2] == a[a.len() - 1]);
        }
        lemma_escaped_behind(a, c);
        assert(escaped(s) =~= escaped(a) + escaped(b));
    }
}

proof fn lemma_method_detail(m: Seq<char>, e: Seq<char>)
    ensures
        text::trim_spec(escaped("call uses `"@ + m + "` but the producer expects `"@ + e + "`"@))
            == "call uses `"@ + escaped(m) + "` but the producer expects `"@ + escaped(e) + "`"@,
{
    reveal_strlit("call uses `");
    reveal_strlit("` but the producer expects `");
    reveal_strlit("`");
    let l1 = "call uses `"@;
    let l2 = "` but the producer expects `"@;
    let l3 = "`"@;
    lemma_escaped_plain(l1);
    lemma_escaped_plain(l2);
    lemma_escaped_plain(l3);
    let s2 = l1 + m + l2;
    lemma_join_escaped(l1, m, l2);
    lemma_join_escaped(s2, e, l3);
    let all = escaped(s2 + e + l3);
    assert(all =~= l1 + escaped(m) + l2 + escaped(e) + l3);
    assert(all[0] == 'c');
    assert(all[all.len() - 1] == '`');
}

proof fn lemma_risk_row(f: Finding)
    requires
        formatter::is_risk(f),
    ensures
        "| `"@ + formatter::cell_spec(formatter::risk_endpoint(f)) + "` | "@ + formatter::cell_spec(
            formatter::risk_detail(f),
        ) + " |\n"@ == risk_row(f),
{
    lemma_cells(formatter::risk_endpoint(f));
    lemma_cells(formatter::risk_detail(f));
    reveal_strlit("` | ");
    match f {
        Finding::TypeMismatch { method, path, producer_type, consumer_type, detail, .. } => {
            lemma_type_detail(producer_type@, consumer_type@, detail@);
            reveal_strlit("` | producer `");
            reveal_strlit("producer `");
            assert("` | producer `"@ =~= "` | "@ + "producer `"@);
            let e = formatter::cell_spec(method@ + " "@ + path@);
            assert("| `"@ + e + "` | "@ + formatter::cell_spec(formatter::risk_detail(f)) + " |\n"@
                =~= risk_row(f));
        },
        Finding::MethodMismatch { method, path, expected_method, .. } => {
            lemma_method_detail(method@, expected_method@);
            reveal_strlit("` | call uses `");
            reveal_strlit("call uses `");
            reveal_strlit("` |\n");
            reveal_strlit("`");
            reveal_strlit(" |\n");
            assert("` | call uses `"@ =~= "` | "@ + "call uses `"@);
            assert("` |\n"@ =~= "`"@ + " |\n"@);
            assert("| `"@ + formatter::cell_spec(method@ + " "@ + path@) + "` | "@
                + formatter::cell_spec(formatter::risk_detail(f)) + " |\n"@ =~= risk_row(f));
        },
        _ => {},
    }
}

/// The texts of the findings put behind one another.
pub open spec fn rows_of(findings: Seq<Finding>, row: spec_fn(Finding) -> Seq<char>) -> Seq<char>
    decreases findings.len(),
{
    if findings.len() == 0 {
        Seq::empty()
    } else {
        rows_of(findings.drop_last(), row) + row(findings.last())
    }
}

proof fn lemma_holds_row(findings: Seq<Finding>, row: spec_fn(Finding) -> Seq<char>, i: int)
    requires
        0 <= i < findings.len(),
    ensures
        holds(rows_of(findings, row), row(findings[i])),
    decreases findings.len(),
{
    if i == findings.len() - 1 {
        lemma_holds_itself(row(findings[i]));
    } else {
        lemma_holds_row(findings.drop_last(), row, i);
    }
    lemma_holds_in_sum(rows_of(findings.drop_last(), row), row(findings.last()), row(findings[i]));
}

proof fn lemma_risk_rows(findings: Seq<Finding>)
    ensures
        formatter::risk_rows(formatter::risks_of(findings)) == rows_of(
            findings,
            |f: Finding| risk_row(f),
        ),
    decreases findings.len(),
{
    reveal_strlit("");
    let row = |f: Finding| risk_row(f);
    if findings.len() == 0 {
        assert(formatter::risk_rows(formatter::risks_of(findings)) =~= Seq::empty());
    } else {
        let front = findings.drop_last();
        let f = findings.last();
        lemma_risk_rows(front);
        let before = formatter::risks_of(front);
        if formatter::is_risk(f) {
            assert(before.push(f).drop_last() =~= before);
            lemma_risk_row(f);
            assert(formatter::risk_rows(before.push(f)) =~= formatter::risk_rows(before) + ("| `"@
                + formatter::cell_spec(formatter::risk_endpoint(f)) + "` | "@
                + formatter::cell_spec(formatter::risk_detail(f)) + " |\n"@));
        } else {
            assert(rows_of(front, row) + row(f) =~= rows_of(front, row));
        }
    }
}

// ---------------------------------------------------------------------------
// The whole report
// ---------------------------------------------------------------------------

/// How many of the findings are of a kind.
pub open spec fn count(findings: Seq<Finding>, kind: spec_fn(Finding) -> bool) -> nat {
    findings.filter(kind).len()
}

/// Whether a type or a method does not fit.
pub open spec fn is_contract_risk(f: Finding) -> bool {
    match f {
        Finding::TypeMismatch { .. } => true,
        Finding::MethodMismatch { .. } => true,
        _ => false,
    }
}

/// Whether major versions of a package differ.
pub open spec fn is_major_conflict(f: Finding) -> bool {
    f matches Finding::DependencyConflict { tier, .. } && tier@ == "major"@
}

/// Whether versions of a package differ, and not in the major version.
pub open spec fn is_minor_conflict(f: Finding) -> bool {
    f matches Finding::DependencyConflict { tier, .. } && tier@ != "major"@
}

proof fn lemma_of_kind(findings: Seq<Finding>, kind: spec_fn(Finding) -> bool)
    ensures
        formatter::of_kind(findings, kind) == findings.filter(kind),
    decreases findings.len(),
{
    reveal(Seq::filter);
    if findings.len() > 0 {
        lemma_of_kind(findings.drop_last(), kind);
    }
}

proof fn lemma_same_kind(
    findings: Seq<Finding>,
    one: spec_fn(Finding) -> bool,
    other: spec_fn(Finding) -> bool,
)
    requires
        forall|f: Finding| #[trigger] one(f) == other(f),
    ensures
        findings.filter(one) == findings.filter(other),
    decreases findings.len(),
{
    reveal(Seq::filter);
    if findings.len() > 0 {
        lemma_same_kind(findings.drop_last(), one, other);
    }
}

proof fn lemma_kinds(findings: Seq<Finding>)
    ensures
        formatter::risks_of(findings) == findings.filter(|f: Finding| is_contract_risk(f)),
        formatter::missing_of(findings) == findings.filter(|f: Finding| f is MissingEndpoint),
        formatter::orphaned_of(findings) == findings.filter(|f: Finding| f is OrphanedEndpoint),
        formatter::env_calls_of(findings) == findings.filter(|f: Finding| f is EnvVarCall),
        formatter::major_of(findings) == findings.filter(|f: Finding| is_major_conflict(f)),
        formatter::advisory_of(findings) == findings.filter(|f: Finding| is_minor_conflict(f)),
{
    lemma_of_kind(findings, |f: Finding| formatter::is_risk(f));
    lemma_same_kind(
        findings,
        |f: Finding| formatter::is_risk(f),
        |f: Finding| is_contract_risk(f),
    );
    lemma_of_kind(findings, |f: Finding| f is MissingEndpoint);
    lemma_of_kind(findings, |f: Finding| f is OrphanedEndpoint);
    lemma_of_kind(findings, |f: Finding| f is EnvVarCall);
    lemma_of_kind(findings, |f: Finding| formatter::is_major(f));
    lemma_same_kind(
        findings,
        |f: Finding| formatter::is_major(f),
        |f: Finding| is_major_conflict(f),
    );
    lemma_of_kind(findings, |f: Finding| formatter::is_advisory(f));
    lemma_same_kind(
        findings,
        |f: Finding| formatter::is_advisory(f),
        |f: Finding| is_minor_conflict(f),
    );
}

proof fn lemma_some_of_kind(findings: Seq<Finding>, kind: spec_fn(Finding) -> bool, i: int)
    requires
        0 <= i < findings.len(),
        kind(findings[i]),
    ensures
        count(findings, kind) > 0,
    decreases findings.len(),
{
    reveal(Seq::filter);
    if i < findings.len() - 1 {
        lemma_some_of_kind(findings.drop_last(), kind, i);
    }
}

/// The marker of the count, at the head of the report.
spec fn marker(findings: Seq<Finding>, has_baseline: bool) -> Seq<char> {
    "<!-- CARRICK_ISSUE_COUNT:"@ + text::decimal(formatter::issue_count(findings, has_baseline))
        + " -->\n"@
}

spec fn verdict(result: ApiAnalysisResult, topology: Topology) -> Seq<char> {
    let findings = result.findings@;
    formatter::verdict_spec(
        formatter::risks_of(findings).len(),
        formatter::missing_of(findings).len() + formatter::orphaned_of(findings).len(),
        formatter::major_of(findings).len() + formatter::advisory_of(findings).len(),
        formatter::groups_of(formatter::env_calls_of(findings)).len(),
        formatter::issue_count(findings, formatter::baseline(topology)),
        topology,
    )
}

spec fn risks_part(result: ApiAnalysisResult) -> Seq<char> {
    let risks = formatter::risks_of(result.findings@);
    formatter::section_if(risks.len() > 0, formatter::critical_spec(risks))
}

spec fn connectivity_part(result: ApiAnalysisResult, topology: Topology) -> Seq<char> {
    let missing = formatter::missing_of(result.findings@);
    let orphaned = formatter::orphaned_of(result.findings@);
    formatter::section_if(
        missing.len() + orphaned.len() > 0,
        formatter::connectivity_spec(missing, orphaned, formatter::baseline(topology)),
    )
}

spec fn dependencies_part(result: ApiAnalysisResult) -> Seq<char> {
    let major = formatter::major_of(result.findings@);
    let advisory = formatter::advisory_of(result.findings@);
    formatter::section_if(
        major.len() + advisory.len() > 0,
        formatter::dependency_spec(major, advisory),
    )
}

spec fn configuration_part(result: ApiAnalysisResult) -> Seq<char> {
    let groups = formatter::groups_of(formatter::env_calls_of(result.findings@));
    formatter::section_if(groups.len() > 0, formatter::configuration_spec(groups))
}

spec fn verified_part(result: ApiAnalysisResult) -> Seq<char> {
    formatter::section_if(
        result.verified_endpoints@.len() > 0,
        formatter::verified_spec(result.verified_endpoints@),
    )
}

proof fn lemma_step(left: Seq<char>, right: Seq<char>, part: Seq<char>)
    ensures
        holds(left, part) || holds(right, part) ==> holds(left + right, part),
{
    if holds(left, part) || holds(right, part) {
        lemma_holds_in_sum(left, right, part);
    }
}

proof fn lemma_report(
    result: ApiAnalysisResult,
    topology: Topology,
    delta: Option<PrDelta>,
    part: Seq<char>,
)
    requires
        result.findings@.len() > 0,
        ({
            ||| holds(marker(result.findings@, formatter::baseline(topology)), part)
            ||| holds(formatter::header_spec(topology), part)
            ||| holds(verdict(result, topology), part)
            ||| holds(formatter::pr_delta_spec(delta, formatter::missing_of(result.findings@)), part)
            ||| holds(
                formatter::indexed_spec(result.endpoints@.len(), result.calls@.len()),
                part,
            )
            ||| holds(risks_part(result), part)
            ||| holds(connectivity_part(result, topology), part)
            ||| holds(dependencies_part(result), part)
            ||| holds(configuration_part(result), part)
            ||| holds(verified_part(result), part)
        }),
    ensures
        holds(formatter::report(result, topology, delta), part),
{
    let t0 = marker(result.findings@, formatter::baseline(topology));
    let t1 = t0 + formatter::header_spec(topology);
    let t2 = t1 + verdict(result, topology);
    let t3 = t2 + "\n\n"@;
    let changes = formatter::pr_delta_spec(delta, formatter::missing_of(result.findings@));
    let t4 = t3 + changes;
    let indexed = formatter::indexed_spec(result.endpoints@.len(), result.calls@.len());
    let t5 = t4 + indexed;
    let banner = formatter::graphql_banner_spec(
        result.detected_graphql_libraries.deep_view(),
        result.graphql_operations_indexed,
    );
    let t6 = t5 + banner;
    let t7 = t6 + risks_part(result);
    let t8 = t7 + connectivity_part(result, topology);
    let t9 = t8 + dependencies_part(result);
    let t10 = t9 + configuration_part(result);
    let t11 = t10 + verified_part(result);
    assert(t11 == formatter::findings_body(result, topology, delta));
    lemma_step(t0, formatter::header_spec(topology), part);
    lemma_step(t1, verdict(result, topology), part);
    lemma_step(t2, "\n\n"@, part);
    lemma_step(t3, changes, part);
    lemma_step(t4, indexed, part);
    lemma_step(t5, banner, part);
    lemma_step(t6, risks_part(result), part);
    lemma_step(t7, connectivity_part(result, topology), part);
    lemma_step(t8, dependencies_part(result), part);
    lemma_step(t9, configuration_part(result), part);
    lemma_step(t10, verified_part(result), part);
    let start = "<!-- CARRICK_OUTPUT_START -->\n"@;
    let end = "<!-- CARRICK_OUTPUT_END -->\n"@;
    lemma_step(start, t11, part);
    lemma_step(start + t11, end, part);
}

/// Where there is a contract risk, the report holds their table: a row for each
/// of them, in the order of the findings, and nothing else.
pub proof fn law_risk_table(
    result: ApiAnalysisResult,
    topology: Topology,
    delta: Option<PrDelta>,
    i: int,
)
    requires
        0 <= i < result.findings@.len(),
        is_contract_risk(result.findings@[i]),
    ensures
        holds(
            formatter::report(result, topology, delta),
            "| Endpoint | Issue |\n| :--- | :--- |\n"@ + rows_of(
                result.findings@,
                |f: Finding| risk_row(f),
            ) + "\n</details>"@,
        ),
{
    let findings = result.findings@;
    lemma_kinds(findings);
    lemma_some_of_kind(findings, |f: Finding| is_contract_risk(f), i);
    let risks = formatter::risks_of(findings);
    lemma_risk_rows(findings);
    let part = "| Endpoint | Issue |\n| :--- | :--- |\n"@ + formatter::risk_rows(risks)
        + "\n</details>"@;
    let head = "<details>\n<summary><strong>Contract risks ("@ + text::decimal(risks.len())
        + ")</strong></summary>\n\n"@
        + "> A consumer call conflicts with the producer it targets in the index. These break the consumer at runtime.\n\n"@;
    assert(formatter::critical_spec(risks) =~= head + part);
    lemma_holds_itself(part);
    lemma_holds_in_sum(head, part, part);
    lemma_holds_in_sum(formatter::critical_spec(risks), "\n\n"@, part);
    lemma_report(result, topology, delta, part);
}

proof fn lemma_risk_row_in_report(
    result: ApiAnalysisResult,
    topology: Topology,
    delta: Option<PrDelta>,
    i: int,
)
    requires
        0 <= i < result.findings@.len(),
        is_contract_risk(result.findings@[i]),
    ensures
        holds(formatter::report(result, topology, delta), risk_row(result.findings@[i])),
{
    let row = |f: Finding| risk_row(f);
    let findings = result.findings@;
    let rows = rows_of(findings, row);
    law_risk_table(result, topology, delta, i);
    lemma_holds_row(findings, row, i);
    let head = "| Endpoint | Issue |\n| :--- | :--- |\n"@;
    lemma_holds_in_sum(head, rows, row(findings[i]));
    lemma_holds_in_sum(head + rows, "\n</details>"@, row(findings[i]));
    lemma_holds_through(
        formatter::report(result, topology, delta),
        head + rows + "\n</details>"@,
        row(findings[i]),
    );
}

/// For every type that does not fit, the report holds a row with the operation in
/// which the text behind "producer `" is the producer's type and the text behind
/// "vs consumer `" is the consumer's type.
pub proof fn law_type_mismatch_row(
    result: ApiAnalysisResult,
    topology: Topology,
    delta: Option<PrDelta>,
    i: int,
)
    requires
        0 <= i < result.findings@.len(),
        result.findings@[i] is TypeMismatch,
    ensures
        result.findings@[i] matches Finding::TypeMismatch {
            method,
            path,
            producer_type,
            consumer_type,
            detail,
            ..
        } ==> holds(
            formatter::report(result, topology, delta),
            "| `"@ + text::trim_spec(escaped(method@ + " "@ + path@)) + "` | producer `"@ + escaped(
                producer_type@,
            ) + "` vs consumer `"@ + escaped(consumer_type@) + "`:"@ + text::trim_end_spec(
                " "@ + escaped(detail@),
            ) + " |\n"@,
        ),
{
    lemma_risk_row_in_report(result, topology, delta, i);
}

/// For every method that does not fit, the report holds a row with the operation
/// in which the text behind "call uses `" is the method of the call and the text
/// behind "expects `" is the producer's.
pub proof fn law_method_mismatch_row(
    result: ApiAnalysisResult,
    topology: Topology,
    delta: Option<PrDelta>,
    i: int,
)
    requires
        0 <= i < result.findings@.len(),
        result.findings@[i] is MethodMismatch,
    ensures
        result.findings@[i] matches Finding::MethodMismatch { method, path, expected_method, .. }
            ==> holds(
            formatter::report(result, topology, delta),
            "| `"@ + text::trim_spec(escaped(method@ + " "@ + path@)) + "` | call uses `"@
                + escaped(method@) + "` but the producer expects `"@ + escaped(expected_method@)
                + "` |\n"@,
        ),
{
    lemma_risk_row_in_report(result, topology, delta, i);
}

// ---------------------------------------------------------------------------
// Connectivity
// ---------------------------------------------------------------------------

/// The places that a missing endpoint is called from; a dash where none is
/// known.
pub open spec fn called_from(call_sites: Seq<Seq<char>>) -> Seq<char> {
    if call_sites.len() == 0 {
        "-"@
    } else {
        "`"@ + in_table(text::join_spec(call_sites, ", "@)) + "`"@
    }
}

/// The row of a missing endpoint; nothing for another finding.
pub open spec fn missing_row(f: Finding) -> Seq<char> {
    match f {
        Finding::MissingEndpoint { method, path, call_sites, .. } => "| `"@ + in_table(method@)
            + "` | `"@ + in_table(path@) + "` | "@ + called_from(call_sites.deep_view()) + " |\n"@,
        _ => Seq::empty(),
    }
}

/// The service of an orphaned endpoint; a dash where none is known.
pub open spec fn owner(service: Option<String>) -> Seq<char> {
    match service {
        Some(s) => "`"@ + in_table(s@) + "`"@,
        None => "-"@,
    }
}

/// The row of an orphaned endpoint, with or without its service; nothing for
/// another finding.
pub open spec fn orphaned_row(f: Finding, with_service: bool) -> Seq<char> {
    match f {
        Finding::OrphanedEndpoint { method, path, service } => if with_service {
            "| `"@ + in_table(method@) + "` | `"@ + in_table(path@) + "` | "@ + owner(service)
                + " |\n"@
        } else {
            "| `"@ + in_table(method@) + "` | `"@ + in_table(path@) + "` |\n"@
        },
        _ => Seq::empty(),
    }
}

/// Whether the service of an orphaned endpoint is known.
pub open spec fn some_owner_known(findings: Seq<Finding>) -> bool {
    exists|i: int|
        0 <= i < findings.len() && ((#[trigger] findings[i]) matches Finding::OrphanedEndpoint {
            service,
            ..
        } && service is Some)
}

proof fn lemma_missing_rows(findings: Seq<Finding>)
    ensures
        formatter::missing_rows(formatter::missing_of(findings)) == rows_of(
            findings,
            |f: Finding| missing_row(f),
        ),
    decreases findings.len(),
{
    reveal_strlit("");
    let row = |f: Finding| missing_row(f);
    if findings.len() == 0 {
        assert(formatter::missing_rows(formatter::missing_of(findings)) =~= Seq::empty());
    } else {
        let front = findings.drop_last();
        let f = findings.last();
        lemma_missing_rows(front);
        let before = formatter::missing_of(front);
        match f {
            Finding::MissingEndpoint { method, path, call_sites, .. } => {
                assert(before.push(f).drop_last() =~= before);
                lemma_cells(method@);
                lemma_cells(path@);
                lemma_cells(text::join_spec(call_sites.deep_view(), ", "@));
                assert(formatter::missing_rows(before.push(f)) =~= formatter::missing_rows(before)
                    + row(f));
            },
            _ => {
                assert(rows_of(front, row) + row(f) =~= rows_of(front, row));
            },
        }
    }
}

proof fn lemma_orphaned_rows(findings: Seq<Finding>, with_service: bool)
    ensures
        formatter::orphaned_rows(formatter::orphaned_of(findings), with_service) == rows_of(
            findings,
            |f: Finding| orphaned_row(f, with_service),
        ),
    decreases findings.len(),
{
    reveal_strlit("");
    let row = |f: Finding| orphaned_row(f, with_service);
    if findings.len() == 0 {
        assert(formatter::orphaned_rows(formatter::orphaned_of(findings), with_service)
            =~= Seq::empty());
    } else {
        let front = findings.drop_last();
        let f = findings.last();
        lemma_orphaned_rows(front, with_service);
        let before = formatter::orphaned_of(front);
        match f {
            Finding::OrphanedEndpoint { method, path, service } => {
                assert(before.push(f).drop_last() =~= before);
                lemma_cells(method@);
                lemma_cells(path@);
                if let Some(s) = service {
                    lemma_cells(s@);
                }
                assert(formatter::orphaned_rows(before.push(f), with_service)
                    =~= formatter::orphaned_rows(before, with_service) + row(f));
            },
            _ => {
                assert(rows_of(front, row) + row(f) =~= rows_of(front, row));
            },
        }
    }
}

proof fn lemma_owner_known(findings: Seq<Finding>)
    ensures
        formatter::any_attributed(formatter::orphaned_of(findings)) == some_owner_known(findings),
    decreases findings.len(),
{
    let r = formatter::orphaned_of(findings);
    if findings.len() > 0 {
        let front = findings.drop_last();
        let f = findings.last();
        let before = formatter::orphaned_of(front);
        lemma_owner_known(front);
        if formatter::any_attributed(r) {
            let i = choose|i: int|
                0 <= i < r.len() && (#[trigger] r[i]) is OrphanedEndpoint
                    && r[i]->OrphanedEndpoint_service is Some;
            if i < before.len() {
                assert(before[i] == r[i]);
                let k = choose|k: int|
                    0 <= k < front.len() && ((#[trigger] front[k]) matches Finding::OrphanedEndpoint {
                        service,
                        ..
                    } && service is Some);
                assert(findings[k] == front[k]);
            } else {
                assert(findings[findings.len() - 1] == f);
            }
        }
        if some_owner_known(findings) {
            let k = choose|k: int|
                0 <= k < findings.len() && ((
                #[trigger] findings[k]) matches Finding::OrphanedEndpoint { service, .. }
                    && service is Some);
            if k < front.len() {
                assert(front[k] == findings[k]);
                let i = choose|i: int|
                    0 <= i < before.len() && (#[trigger] before[i]) is OrphanedEndpoint
                        && before[i]->OrphanedEndpoint_service is Some;
                assert(r[i] == before[i]);
            } else {
                assert(r[before.len() as int] == f);
            }
        }
    }
}

proof fn lemma_connectivity(
    missing: Seq<Finding>,
    orphaned: Seq<Finding>,
    has_baseline: bool,
    part: Seq<char>,
)
    ensures
        missing.len() > 0 && part == "**Missing ("@ + text::decimal(missing.len()) + ")**\n\n"@
            + "| Method | Path | Called from |\n| :--- | :--- | :--- |\n"@
            + formatter::missing_rows(missing) + "\n"@ ==> holds(
            formatter::connectivity_spec(missing, orphaned, has_baseline),
            part,
        ),
        orphaned.len() > 0 && part == "**Orphaned ("@ + text::decimal(orphaned.len()) + ")**\n\n"@
            + (if formatter::any_attributed(orphaned) {
            "| Method | Path | Service |\n| :--- | :--- | :--- |\n"@
        } else {
            "| Method | Path |\n| :--- | :--- |\n"@
        }) + formatter::orphaned_rows(orphaned, formatter::any_attributed(orphaned)) + "\n</details>"@
            ==> holds(formatter::connectivity_spec(missing, orphaned, has_baseline), part),
{
    let head = "<details>\n<summary><strong>"@ + (if has_baseline {
        "Connectivity"@
    } else {
        "Connectivity Observations"@
    }) + " ("@ + text::decimal(missing.len() + orphaned.len()) + ")</strong></summary>\n\n"@
        + "> Orphaned endpoints have no consumer in the indexed services. Missing endpoints have a consumer call but no producer.\n\n"@;
    let first = if has_baseline {
        ""@
    } else {
        "> **First repo indexed for this project.** With nothing else to match against, every endpoint without a same-repo consumer is listed below; most resolve once you connect the repos that call them.\n\n"@
    };
    let missing_part = if missing.len() == 0 {
        ""@
    } else {
        "**Missing ("@ + text::decimal(missing.len()) + ")**\n\n"@
            + "| Method | Path | Called from |\n| :--- | :--- | :--- |\n"@
            + formatter::missing_rows(missing) + "\n"@
    };
    let orphaned_part = if orphaned.len() == 0 {
        ""@
    } else {
        "**Orphaned ("@ + text::decimal(orphaned.len()) + ")**\n\n"@ + (
        if formatter::any_attributed(orphaned) {
            "| Method | Path | Service |\n| :--- | :--- | :--- |\n"@
        } else {
            "| Method | Path |\n| :--- | :--- |\n"@
        }) + formatter::orphaned_rows(orphaned, formatter::any_attributed(orphaned))
    };
    let end = "\n</details>"@;
    let whole = head + first + missing_part + orphaned_part + end;
    assert(whole == formatter::connectivity_spec(missing, orphaned, has_baseline));
    assert(whole =~= (head + first) + missing_part + (orphaned_part + end));
    lemma_holds(head + first, missing_part, orphaned_part + end);
    assert(whole =~= (head + first + missing_part) + (orphaned_part + end) + Seq::empty());
    lemma_holds(head + first + missing_part, orphaned_part + end, Seq::empty());
}

/// Where an endpoint is missing, the report holds their table: the number of
/// them, then a row for each with its method, its path and where it is called
/// from.
pub proof fn law_missing_table(
    result: ApiAnalysisResult,
    topology: Topology,
    delta: Option<PrDelta>,
    i: int,
)
    requires
        0 <= i < result.findings@.len(),
        result.findings@[i] is MissingEndpoint,
    ensures
        holds(
            formatter::report(result, topology, delta),
            "**Missing ("@ + text::decimal(
                count(result.findings@, |f: Finding| f is MissingEndpoint),
            ) + ")**\n\n"@ + "| Method | Path | Called from |\n| :--- | :--- | :--- |\n"@ + rows_of(
                result.findings@,
                |f: Finding| missing_row(f),
            ) + "\n"@,
        ),
{
    let findings = result.findings@;
    lemma_kinds(findings);
    lemma_some_of_kind(findings, |f: Finding| f is MissingEndpoint, i);
    let missing = formatter::missing_of(findings);
    let orphaned = formatter::orphaned_of(findings);
    lemma_missing_rows(findings);
    let part = "**Missing ("@ + text::decimal(missing.len()) + ")**\n\n"@
        + "| Method | Path | Called from |\n| :--- | :--- | :--- |\n"@ + formatter::missing_rows(
        missing,
    ) + "\n"@;
    lemma_connectivity(missing, orphaned, formatter::baseline(topology), part);
    lemma_holds_in_sum(
        formatter::connectivity_spec(missing, orphaned, formatter::baseline(topology)),
        "\n\n"@,
        part,
    );
    lemma_report(result, topology, delta, part);
}

/// Where an endpoint is orphaned, the report holds their table: the number of
/// them, then a row for each with its method and its path, and its service where
/// one is known of any.
pub proof fn law_orphaned_table(
    result: ApiAnalysisResult,
    topology: Topology,
    delta: Option<PrDelta>,
    i: int,
)
    requires
        0 <= i < result.findings@.len(),
        result.findings@[i] is OrphanedEndpoint,
    ensures
        holds(
            formatter::report(result, topology, delta),
            "**Orphaned ("@ + text::decimal(
                count(result.findings@, |f: Finding| f is OrphanedEndpoint),
            ) + ")**\n\n"@ + (if some_owner_known(result.findings@) {
                "| Method | Path | Service |\n| :--- | :--- | :--- |\n"@
            } else {
                "| Method | Path |\n| :--- | :--- |\n"@
            }) + rows_of(
                result.findings@,
                |f: Finding| orphaned_row(f, some_owner_known(result.findings@)),
            ) + "\n</details>"@,
        ),
{
    let findings = result.findings@;
    lemma_kinds(findings);
    lemma_some_of_kind(findings, |f: Finding| f is OrphanedEndpoint, i);
    let missing = formatter::missing_of(findings);
    let orphaned = formatter::orphaned_of(findings);
    let with_service = some_owner_known(findings);
    lemma_owner_known(findings);
    lemma_orphaned_rows(findings, with_service);
    assert(rows_of(findings, |f: Finding| orphaned_row(f, with_service)) == rows_of(
        findings,
        |f: Finding| orphaned_row(f, some_owner_known(findings)),
    ));
    let part = "**Orphaned ("@ + text::decimal(orphaned.len()) + ")**\n\n"@ + (if with_service {
        "| Method | Path | Service |\n| :--- | :--- | :--- |\n"@
    } else {
        "| Method | Path |\n| :--- | :--- |\n"@
    }) + formatter::orphaned_rows(orphaned, with_service) + "\n</details>"@;
    lemma_connectivity(missing, orphaned, formatter::baseline(topology), part);
    lemma_holds_in_sum(
        formatter::connectivity_spec(missing, orphaned, formatter::baseline(topology)),
        "\n\n"@,
        part,
    );
    lemma_report(result, topology, delta, part);
}

// ---------------------------------------------------------------------------
// Dependencies
// ---------------------------------------------------------------------------

/// The rows of a package's versions: the repository, the version and the source
/// of each.
pub open spec fn versions_in_rows(versions: Seq<PackageVersionRef>) -> Seq<char>
    decreases versions.len(),
{
    if versions.len() == 0 {
        Seq::empty()
    } else {
        let v = versions[versions.len() - 1];
        versions_in_rows(versions.take(versions.len() - 1)) + ("| `"@ + in_table(v.repo@) + "` | `"@
            + in_table(v.version@) + "` | `"@ + in_table(v.source@) + "` |\n"@)
    }
}

/// The table of a package's versions.
pub open spec fn package_table(name: Seq<char>, versions: Seq<PackageVersionRef>) -> Seq<char> {
    "#### "@ + name + "\n\n"@ + "| Repository | Version | Source |\n| :--- | :--- | :--- |\n"@
        + versions_in_rows(versions) + "\n"@
}

/// The table of a conflict between major versions, or of another conflict;
/// nothing for another finding.
pub open spec fn conflict_table(f: Finding, major: bool) -> Seq<char> {
    match f {
        Finding::DependencyConflict { package_name, tier, versions } => if (tier@ == "major"@)
            == major {
            package_table(package_name@, versions@)
        } else {
            Seq::empty()
        },
        _ => Seq::empty(),
    }
}

proof fn lemma_version_rows(versions: Seq<PackageVersionRef>)
    ensures
        formatter::version_rows(versions) == versions_in_rows(versions),
    decreases versions.len(),
{
    reveal_strlit("");
    if versions.len() == 0 {
        assert(formatter::version_rows(versions) =~= Seq::empty());
    } else {
        let v = versions.last();
        let front = versions.take(versions.len() - 1);
        assert(versions.drop_last() =~= front);
        lemma_version_rows(front);
        lemma_cells(v.repo@);
        lemma_cells(v.version@);
        lemma_cells(v.source@);
        assert(formatter::version_rows(versions) =~= versions_in_rows(versions));
    }
}

proof fn lemma_conflict_tables(findings: Seq<Finding>)
    ensures
        formatter::conflict_tables(formatter::major_of(findings)) == rows_of(
            findings,
            |f: Finding| conflict_table(f, true),
        ),
        formatter::conflict_tables(formatter::advisory_of(findings)) == rows_of(
            findings,
            |f: Finding| conflict_table(f, false),
        ),
    decreases findings.len(),
{
    reveal_strlit("");
    let major = |f: Finding| conflict_table(f, true);
    let minor = |f: Finding| conflict_table(f, false);
    if findings.len() == 0 {
        assert(formatter::conflict_tables(formatter::major_of(findings)) =~= Seq::empty());
        assert(formatter::conflict_tables(formatter::advisory_of(findings)) =~= Seq::empty());
    } else {
        let front = findings.drop_last();
        let f = findings.last();
        lemma_conflict_tables(front);
        let a = formatter::major_of(front);
        let b = formatter::advisory_of(front);
        match f {
            Finding::DependencyConflict { package_name, tier, versions } => {
                lemma_version_rows(versions@);
                assert(a.push(f).drop_last() =~= a);
                assert(b.push(f).drop_last() =~= b);
                assert(formatter::conflict_tables(a.push(f)) =~= formatter::conflict_tables(a)
                    + package_table(package_name@, versions@));
                assert(formatter::conflict_tables(b.push(f)) =~= formatter::conflict_tables(b)
                    + package_table(package_name@, versions@));
            },
            _ => {},
        }
        if !is_major_conflict(f) {
            assert(rows_of(front, major) + major(f) =~= rows_of(front, major));
        }
        if !is_minor_conflict(f) {
            assert(rows_of(front, minor) + minor(f) =~= rows_of(front, minor));
        }
    }
}

/// Where major versions of a package differ, the report holds the table of each
/// such package under the heading of major conflicts and their number.
pub proof fn law_major_conflicts(
    result: ApiAnalysisResult,
    topology: Topology,
    delta: Option<PrDelta>,
    i: int,
)
    requires
        0 <= i < result.findings@.len(),
        is_major_conflict(result.findings@[i]),
    ensures
        holds(
            formatter::report(result, topology, delta),
            "### "@ + "Major version conflicts"@ + " ("@ + text::decimal(
                count(result.findings@, |f: Finding| is_major_conflict(f)),
            ) + ")\n\n"@ + rows_of(result.findings@, |f: Finding| conflict_table(f, true)),
        ),
{
    let findings = result.findings@;
    lemma_kinds(findings);
    lemma_some_of_kind(findings, |f: Finding| is_major_conflict(f), i);
    let major = formatter::major_of(findings);
    let advisory = formatter::advisory_of(findings);
    lemma_conflict_tables(findings);
    let part = formatter::conflict_group("Major version conflicts"@, major);
    lemma_dependencies(major, advisory, part);
    lemma_holds_in_sum(formatter::dependency_spec(major, advisory), "\n\n"@, part);
    lemma_report(result, topology, delta, part);
}

/// Where other versions of a package differ, the report holds the table of each
/// such package under the heading of what is advice.
pub proof fn law_advisory_conflicts(
    result: ApiAnalysisResult,
    topology: Topology,
    delta: Option<PrDelta>,
    i: int,
)
    requires
        0 <= i < result.findings@.len(),
        is_minor_conflict(result.findings@[i]),
    ensures
        holds(
            formatter::report(result, topology, delta),
            "### "@ + "Unparseable version pins (advisory)"@ + " ("@ + text::decimal(
                count(result.findings@, |f: Finding| is_minor_conflict(f)),
            ) + ")\n\n"@ + rows_of(result.findings@, |f: Finding| conflict_table(f, false)),
        ),
{
    let findings = result.findings@;
    lemma_kinds(findings);
    lemma_some_of_kind(findings, |f: Finding| is_minor_conflict(f), i);
    let major = formatter::major_of(findings);
    let advisory = formatter::advisory_of(findings);
    lemma_conflict_tables(findings);
    let part = formatter::conflict_group("Unparseable version pins (advisory)"@, advisory);
    lemma_dependencies(major, advisory, part);
    lemma_holds_in_sum(formatter::dependency_spec(major, advisory), "\n\n"@, part);
    lemma_report(result, topology, delta, part);
}

proof fn lemma_dependencies(major: Seq<Finding>, advisory: Seq<Finding>, part: Seq<char>)
    ensures
        part == formatter::conflict_group("Major version conflicts"@, major) ==> holds(
            formatter::dependency_spec(major, advisory),
            part,
        ),
        part == formatter::conflict_group("Unparseable version pins (advisory)"@, advisory)
            ==> holds(formatter::dependency_spec(major, advisory), part),
{
    let head = "<details>\n<summary><strong>Dependency conflicts ("@ + text::decimal(
        major.len() + advisory.len(),
    ) + ")</strong></summary>\n\n"@
        + "> Packages with different versions across services in the index.\n\n"@;
    let one = formatter::conflict_group("Major version conflicts"@, major);
    let two = formatter::conflict_group("Unparseable version pins (advisory)"@, advisory);
    let end = "</details>"@;
    let whole = head + one + two + end;
    assert(whole == formatter::dependency_spec(major, advisory));
    assert(whole =~= head + one + (two + end));
    lemma_holds(head, one, two + end);
    lemma_holds(head + one, two, end);
}

// ---------------------------------------------------------------------------
// Configuration
// ---------------------------------------------------------------------------

/// For every call by an environment variable the report suggests the variable,
/// with the method and the path of the call.
pub proof fn law_env_var_suggested(
    result: ApiAnalysisResult,
    topology: Topology,
    delta: Option<PrDelta>,
    i: int,
)
    requires
        0 <= i < result.findings@.len(),
        result.findings@[i] is EnvVarCall,
    ensures
        result.findings@[i] matches Finding::EnvVarCall { method, path, env_var, .. } ==> holds(
            formatter::report(result, topology, delta),
            "  - `"@ + method@ + " "@ + path@ + "` using **["@ + env_var@ + "]** ("@,
        ),
{
    let findings = result.findings@;
    let f = findings[i];
    let calls = formatter::env_calls_of(findings);
    let key = formatter::group_key_of(f);
    formatter::lemma_env_call_listed(findings, f);
    formatter::law_env_var_groups(calls);
    let k = choose|k: int| 0 <= k < calls.len() && calls[k] == f;
    assert(formatter::has_group(calls, key)) by {
        assert(findings.contains(findings[i]));
        assert(calls[k] is EnvVarCall);
    }
    let keys = formatter::group_keys(calls);
    let groups = formatter::groups_of(calls);
    assert(keys.contains(key));
    let g = choose|g: int| 0 <= g < keys.len() && keys[g] == key;
    assert(groups[g].key == key);
    let part = "  - `"@ + key.method + " "@ + key.path + "` using **["@ + key.env_var + "]** ("@;
    lemma_group_line(groups, g, part);
    let head = "<details>\n<summary><strong>Configuration suggestions ("@ + text::decimal(
        groups.len(),
    ) + ")</strong></summary>\n\n"@
        + "> These calls use environment variables to construct the URL. Add them to `internalEnvVars` (to validate routes) or `externalEnvVars` (to ignore) in your `carrick.json`.\n\n"@;
    let lines = formatter::all_group_lines(groups);
    lemma_holds_in_sum(head, lines, part);
    lemma_holds_in_sum(head + lines, "\n</details>"@, part);
    lemma_holds_in_sum(formatter::configuration_spec(groups), "\n\n"@, part);
    lemma_report(result, topology, delta, part);
}

proof fn lemma_group_line(groups: Seq<formatter::GroupModel>, i: int, part: Seq<char>)
    requires
        0 <= i < groups.len(),
        part == "  - `"@ + groups[i].key.method + " "@ + groups[i].key.path + "` using **["@
            + groups[i].key.env_var + "]** ("@,
    ensures
        holds(formatter::all_group_lines(groups), part),
    decreases groups.len(),
{
    let before = formatter::all_group_lines(groups.drop_last());
    let line = formatter::group_lines(groups.last());
    if i < groups.len() - 1 {
        lemma_group_line(groups.drop_last(), i, part);
    } else {
        let g = groups.last();
        let n = g.locations.len();
        let count = if n == 0 {
            1nat
        } else {
            n
        };
        let locations = formatter::location_lines(
            if n > 3 {
                g.locations.take(3)
            } else {
                g.locations
            },
        );
        let more = if n > 3 {
            "    - … +"@ + text::decimal((n - 3) as nat) + " more\n"@
        } else {
            ""@
        };
        let rest = text::decimal(count) + " call site"@ + formatter::plural_spec(count) + ")\n"@
            + locations + more;
        assert(line =~= Seq::<char>::empty() + part + rest);
        lemma_holds(Seq::empty(), part, rest);
    }
    lemma_holds_in_sum(before, line, part);
}

// ---------------------------------------------------------------------------
// Verified endpoints
// ---------------------------------------------------------------------------

/// For every verified endpoint the report holds a row with its method and its
/// path.
pub proof fn law_verified_row(
    result: ApiAnalysisResult,
    topology: Topology,
    delta: Option<PrDelta>,
    i: int,
)
    requires
        0 <= i < result.verified_endpoints@.len(),
    ensures
        holds(
            formatter::report(result, topology, delta),
            "| `"@ + result.verified_endpoints@[i].0@ + "` | `"@ + result.verified_endpoints@[i].1@
                + "` |\n"@,
        ),
{
    let verified = result.verified_endpoints@;
    let part = "| `"@ + verified[i].0@ + "` | `"@ + verified[i].1@ + "` |\n"@;
    lemma_verified_row(verified, i);
    let rows = formatter::verified_rows(verified);
    let head = "<details>\n<summary><strong>Verified ("@ + text::decimal(verified.len())
        + ")</strong></summary>\n\n"@
        + "> Endpoints with at least one matching consumer call. Types were resolved and compared by the TypeScript compiler pass.\n\n"@
        + "| Method | Path |\n| :--- | :--- |\n"@;
    lemma_holds_in_sum(head, rows, part);
    lemma_holds_in_sum(head + rows, "\n</details>"@, part);
    assert(formatter::verified_spec(verified) == head + rows + "\n</details>"@);
    lemma_holds_in_sum(formatter::verified_spec(verified), "\n\n"@, part);
    if result.findings@.len() > 0 {
        lemma_report(result, topology, delta, part);
    } else {
        let body = formatter::clean_body(result, topology, delta);
        let before = "<!-- CARRICK_ISSUE_COUNT:0 -->\n"@ + formatter::header_spec(topology) + (
        "> [!TIP]\n> All cross-service calls match the indexed contracts across "@
            + formatter::scope_spec(topology) + ".\n\n"@) + formatter::pr_delta_spec(
            delta,
            Seq::empty(),
        ) + formatter::indexed_spec(result.endpoints@.len(), result.calls@.len())
            + formatter::graphql_banner_spec(
            result.detected_graphql_libraries.deep_view(),
            result.graphql_operations_indexed,
        );
        assert(body == before + verified_part(result));
        lemma_holds_in_sum(before, verified_part(result), part);
        let start = "<!-- CARRICK_OUTPUT_START -->\n"@;
        lemma_holds_in_sum(start, body, part);
        lemma_holds_in_sum(start + body, "<!-- CARRICK_OUTPUT_END -->\n"@, part);
    }
}

proof fn lemma_verified_row(verified: Seq<(String, String)>, i: int)
    requires
        0 <= i < verified.len(),
    ensures
        holds(
            formatter::verified_rows(verified),
            "| `"@ + verified[i].0@ + "` | `"@ + verified[i].1@ + "` |\n"@,
        ),
    decreases verified.len(),
{
    let part = "| `"@ + verified[i].0@ + "` | `"@ + verified[i].1@ + "` |\n"@;
    let before = formatter::verified_rows(verified.drop_last());
    if i < verified.len() - 1 {
        lemma_verified_row(verified.drop_last(), i);
        let last = "| `"@ + verified.last().0@ + "` | `"@ + verified.last().1@ + "` |\n"@;
        lemma_holds_in_sum(before, last, part);
        assert(formatter::verified_rows(verified) =~= before + last);
    } else {
        lemma_holds(before, part, Seq::empty());
        assert(formatter::verified_rows(verified) =~= before + part + Seq::empty());
    }
}

// ---------------------------------------------------------------------------
// The count and the alert
// ---------------------------------------------------------------------------

/// How many issues count: every contract risk and every conflict of major
/// versions, and every missing and orphaned endpoint where there is more than one
/// service to match across.
pub open spec fn issues(findings: Seq<Finding>, topology: Topology) -> nat {
    let several = topology.peer_repo_count > 0 || topology.local_service_count > 1;
    count(findings, |f: Finding| is_contract_risk(f)) + count(
        findings,
        |f: Finding| is_major_conflict(f),
    ) + (if several {
        count(findings, |f: Finding| f is MissingEndpoint) + count(
            findings,
            |f: Finding| f is OrphanedEndpoint,
        )
    } else {
        0
    })
}

/// The marker at the head of the report gives the number of issues.
pub proof fn law_issue_count(result: ApiAnalysisResult, topology: Topology, delta: Option<PrDelta>)
    ensures
        holds(
            formatter::report(result, topology, delta),
            "<!-- CARRICK_ISSUE_COUNT:"@ + text::decimal(issues(result.findings@, topology))
                + " -->\n"@,
        ),
{
    let findings = result.findings@;
    lemma_kinds(findings);
    if findings.len() > 0 {
        let part = marker(findings, formatter::baseline(topology));
        assert(formatter::issue_count(findings, formatter::baseline(topology)) == issues(
            findings,
            topology,
        ));
        lemma_holds_itself(part);
        lemma_report(result, topology, delta, part);
    } else {
        reveal(Seq::filter);
        assert(issues(findings, topology) == 0);
        reveal_strlit("<!-- CARRICK_ISSUE_COUNT:0 -->\n");
        reveal_strlit("<!-- CARRICK_ISSUE_COUNT:");
        reveal_strlit(" -->\n");
        let part = "<!-- CARRICK_ISSUE_COUNT:"@ + text::decimal(0) + " -->\n"@;
        assert(text::decimal(0) =~= seq!['0']);
        assert("<!-- CARRICK_ISSUE_COUNT:0 -->\n"@ =~= part);
        lemma_holds_itself(part);
        let body = formatter::clean_body(result, topology, delta);
        let rest = formatter::header_spec(topology) + (
        "> [!TIP]\n> All cross-service calls match the indexed contracts across "@
            + formatter::scope_spec(topology) + ".\n\n"@) + formatter::pr_delta_spec(
            delta,
            Seq::empty(),
        ) + formatter::indexed_spec(result.endpoints@.len(), result.calls@.len())
            + formatter::graphql_banner_spec(
            result.detected_graphql_libraries.deep_view(),
            result.graphql_operations_indexed,
        ) + verified_part(result);
        assert(body =~= part + rest);
        lemma_holds_in_sum(part, rest, part);
        let start = "<!-- CARRICK_OUTPUT_START -->\n"@;
        lemma_holds_in_sum(start, body, part);
        lemma_holds_in_sum(start + body, "<!-- CARRICK_OUTPUT_END -->\n"@, part);
    }
}

/// The alert that opens a report with findings warns of a contract risk as of
/// nothing else, and of another issue more than of mere advice.
pub proof fn law_alert_by_severity(
    result: ApiAnalysisResult,
    topology: Topology,
    delta: Option<PrDelta>,
)
    requires
        result.findings@.len() > 0,
    ensures
        ({
            let risks = count(result.findings@, |f: Finding| is_contract_risk(f));
            let total = issues(result.findings@, topology);
            let report = formatter::report(result, topology, delta);
            &&& risks > 0 ==> holds(report, "> [!"@ + "CAUTION"@ + "]\n> "@)
            &&& risks == 0 && total > 0 ==> holds(report, "> [!"@ + "WARNING"@ + "]\n> "@)
            &&& total == 0 ==> holds(report, "> [!"@ + "NOTE"@ + "]\n> "@)
        }),
{
    let findings = result.findings@;
    lemma_kinds(findings);
    let risks = formatter::risks_of(findings).len();
    let total = formatter::issue_count(findings, formatter::baseline(topology));
    assert(total == issues(findings, topology));
    let kind = if risks > 0 {
        "CAUTION"@
    } else if total > 0 {
        "WARNING"@
    } else {
        "NOTE"@
    };
    let part = "> [!"@ + kind + "]\n> "@;
    let whole = verdict(result, topology);
    assert(holds(whole, part)) by {
        let connectivity = formatter::missing_of(findings).len() + formatter::orphaned_of(
            findings,
        ).len();
        let phrases = formatter::verdict_phrases(
            risks,
            connectivity,
            formatter::major_of(findings).len() + formatter::advisory_of(findings).len(),
            formatter::groups_of(formatter::env_calls_of(findings)).len(),
            formatter::baseline(topology),
        );
        let summary = if phrases.len() == 0 {
            "Nothing to flag"@
        } else {
            formatter::join_human_spec(phrases)
        };
        let first = if !formatter::baseline(topology) && connectivity > 0 {
            " First repo indexed, so connectivity findings are informational."@
        } else {
            ""@
        };
        let rest = summary + " across "@ + formatter::scope_spec(topology) + "."@ + first;
        assert(whole =~= Seq::<char>::empty() + part + rest);
        lemma_holds(Seq::empty(), part, rest);
    }
    lemma_report(result, topology, delta, part);
}

// ---------------------------------------------------------------------------
// The changes of a pull request
// ---------------------------------------------------------------------------

/// An operation in prose: its method and path, and its service where it has a
/// name to show.
pub open spec fn operation(e: EndpointRef) -> Seq<char> {
    "`"@ + in_prose(e.method@) + " "@ + in_prose(e.path@) + "`"@ + match e.service {
        Some(s) => if in_prose(s@).len() == 0 {
            Seq::empty()
        } else {
            " (`"@ + in_prose(s@) + "`)"@
        },
        None => Seq::empty(),
    }
}

proof fn lemma_operation(e: EndpointRef)
    ensures
        formatter::endpoint_ref_spec(e) == operation(e),
{
    reveal_strlit("");
    lemma_cells(e.method@);
    lemma_cells(e.path@);
    if let Some(s) = e.service {
        lemma_cells(s@);
    }
    assert(""@ =~= Seq::<char>::empty());
}

/// Whether a finding is a missing endpoint of the same route: the methods are the
/// same up to case, and so are the paths, segment by segment, where a parameter on
/// either side is the same as anything.
pub open spec fn misses(f: Finding, e: EndpointRef) -> bool {
    f matches Finding::MissingEndpoint { method, path, .. } && text::same_ignoring_ascii_case(
        e.method@,
        method@,
    ) && same_route(text::split_spec(e.path@, '/'), text::split_spec(path@, '/'))
}

/// Whether two routes are the same, segment by segment.
pub open spec fn same_route(a: Seq<Seq<char>>, b: Seq<Seq<char>>) -> bool {
    a.len() == b.len() && forall|i: int|
        0 <= i < a.len() ==> (#[trigger] a[i]) == b[i] || is_parameter(a[i]) || is_parameter(b[i])
}

/// Whether a segment is a parameter: it begins with a colon, or stands in braces,
/// in angle brackets or in brackets, where a question mark may follow.
pub open spec fn is_parameter(s: Seq<char>) -> bool {
    s.len() > 0 && {
        ||| s[0] == ':'
        ||| stands_between(s, '{', '}')
        ||| stands_between(s, '<', '>')
        ||| stands_between(s, '[', ']')
    }
}

/// Whether a text begins with one character and ends with the other, or with the
/// other and a question mark.
pub open spec fn stands_between(s: Seq<char>, open: char, close: char) -> bool {
    s.len() > 1 && s[0] == open && (s[s.len() - 1] == close || s[s.len() - 1] == '?' && s[s.len()
        - 2] == close)
}

proof fn lemma_misses(e: EndpointRef, findings: Seq<Finding>)
    ensures
        formatter::still_consumed(e, formatter::missing_of(findings)) == (exists|i: int|
            0 <= i < findings.len() && misses(#[trigger] findings[i], e)),
    decreases findings.len(),
{
    let r = formatter::missing_of(findings);
    if findings.len() > 0 {
        let front = findings.drop_last();
        let f = findings.last();
        let before = formatter::missing_of(front);
        lemma_misses(e, front);
        if f is MissingEndpoint {
            lemma_overlap(e, f);
        }
        if formatter::still_consumed(e, r) {
            let i = choose|i: int|
                0 <= i < r.len() && (#[trigger] r[i]) is MissingEndpoint && formatter::overlap(
                    e.method@,
                    e.path@,
                    r[i]->MissingEndpoint_method@,
                    r[i]->MissingEndpoint_path@,
                );
            if i < before.len() {
                assert(before[i] == r[i]);
                let k = choose|k: int| 0 <= k < front.len() && misses(#[trigger] front[k], e);
                assert(findings[k] == front[k]);
            } else {
                assert(misses(findings[findings.len() - 1], e));
            }
        }
        if exists|i: int| 0 <= i < findings.len() && misses(#[trigger] findings[i], e) {
            let k = choose|k: int| 0 <= k < findings.len() && misses(#[trigger] findings[k], e);
            if k < front.len() {
                assert(front[k] == findings[k]);
                let i = choose|i: int|
                    0 <= i < before.len() && (#[trigger] before[i]) is MissingEndpoint
                        && formatter::overlap(
                        e.method@,
                        e.path@,
                        before[i]->MissingEndpoint_method@,
                        before[i]->MissingEndpoint_path@,
                    );
                assert(r[i] == before[i]);
            } else {
                assert(r[before.len() as int] == f);
            }
        }
    }
}

proof fn lemma_overlap(e: EndpointRef, f: Finding)
    requires
        f is MissingEndpoint,
    ensures
        formatter::overlap(
            e.method@,
            e.path@,
            f->MissingEndpoint_method@,
            f->MissingEndpoint_path@,
        ) == misses(f, e),
{
    let a = text::split_spec(e.path@, '/');
    let b = text::split_spec(f->MissingEndpoint_path@, '/');
    if a.len() == b.len() {
        assert forall|i: int| 0 <= i < a.len() implies (formatter::segments_overlap(
            #[trigger] a[i],
            #[trigger] b[i],
        ) <==> a[i] == b[i] || is_parameter(a[i]) || is_parameter(b[i])) by {
            lemma_parameter(a[i]);
            lemma_parameter(b[i]);
        }
        if formatter::overlap(
            e.method@,
            e.path@,
            f->MissingEndpoint_method@,
            f->MissingEndpoint_path@,
        ) {
            assert forall|i: int| 0 <= i < a.len() implies (#[trigger] a[i]) == b[i]
                || is_parameter(a[i]) || is_parameter(b[i]) by {
                assert(formatter::segments_overlap(a[i], b[i]));
            }
        }
        if misses(f, e) {
            assert forall|i: int| 0 <= i < a.len() implies formatter::segments_overlap(
                #[trigger] a[i],
                #[trigger] b[i],
            ) by {
                assert(a[i] == b[i] || is_parameter(a[i]) || is_parameter(b[i]));
            }
        }
    }
}

proof fn lemma_parameter(s: Seq<char>)
    ensures
        crate::mount_graph::is_param_segment_spec(s) == is_parameter(s),
{
    if s.len() > 1 && s[s.len() - 1] == '?' {
        let t = s.drop_last();
        assert(t[0] == s[0]);
        assert(t[t.len() - 1] == s[s.len() - 2]);
    }
}

proof fn lemma_new_line(endpoints: Seq<EndpointRef>, i: int)
    requires
        0 <= i < endpoints.len(),
    ensures
        holds(
            formatter::new_lines(endpoints),
            "- New endpoint "@ + operation(endpoints[i]) + "\n"@,
        ),
    decreases endpoints.len(),
{
    let part = "- New endpoint "@ + operation(endpoints[i]) + "\n"@;
    let before = formatter::new_lines(endpoints.drop_last());
    let last = "- New endpoint "@ + operation(endpoints.last()) + "\n"@;
    lemma_operation(endpoints.last());
    assert(formatter::new_lines(endpoints) =~= before + last);
    if i < endpoints.len() - 1 {
        lemma_new_line(endpoints.drop_last(), i);
    } else {
        lemma_holds_itself(part);
    }
    lemma_holds_in_sum(before, last, part);
}

/// The line of a removed endpoint, flagged where something still calls it.
pub open spec fn removed_line(e: EndpointRef, consumed: bool) -> Seq<char> {
    "- Removed "@ + operation(e) + (if consumed {
        " — ⚠ still consumed"@
    } else {
        Seq::empty()
    }) + "\n"@
}

proof fn lemma_removed_line(endpoints: Seq<EndpointRef>, missing: Seq<Finding>, i: int)
    requires
        0 <= i < endpoints.len(),
    ensures
        holds(
            formatter::removed_lines(endpoints, missing),
            removed_line(endpoints[i], formatter::still_consumed(endpoints[i], missing)),
        ),
    decreases endpoints.len(),
{
    reveal_strlit("");
    assert(""@ =~= Seq::<char>::empty());
    let part = removed_line(endpoints[i], formatter::still_consumed(endpoints[i], missing));
    let before = formatter::removed_lines(endpoints.drop_last(), missing);
    let e = endpoints.last();
    let last = removed_line(e, formatter::still_consumed(e, missing));
    lemma_operation(e);
    assert(formatter::removed_lines(endpoints, missing) =~= before + last);
    if i < endpoints.len() - 1 {
        lemma_removed_line(endpoints.drop_last(), missing, i);
    } else {
        lemma_holds_itself(part);
    }
    lemma_holds_in_sum(before, last, part);
}

proof fn lemma_changes(
    result: ApiAnalysisResult,
    topology: Topology,
    d: PrDelta,
    part: Seq<char>,
)
    requires
        d.new_endpoints@.len() > 0 || d.removed_endpoints@.len() > 0,
        holds(formatter::new_lines(d.new_endpoints@), part) || holds(
            formatter::removed_lines(
                d.removed_endpoints@,
                formatter::missing_of(result.findings@),
            ),
            part,
        ),
    ensures
        holds(formatter::report(result, topology, Some(d)), part),
{
    let missing = formatter::missing_of(result.findings@);
    let delta = Some(d);
    let head = "**In this PR**\n\n"@;
    let a = formatter::new_lines(d.new_endpoints@);
    let b = formatter::removed_lines(d.removed_endpoints@, missing);
    lemma_step(head, a, part);
    lemma_step(head + a, b, part);
    lemma_step(head + a + b, "\n"@, part);
    let changes = formatter::pr_delta_spec(delta, missing);
    assert(changes == head + a + b + "\n"@);
    if result.findings@.len() > 0 {
        lemma_report(result, topology, delta, part);
    } else {
        assert(missing =~= Seq::empty());
        let body = formatter::clean_body(result, topology, delta);
        let before = "<!-- CARRICK_ISSUE_COUNT:0 -->\n"@ + formatter::header_spec(topology) + (
        "> [!TIP]\n> All cross-service calls match the indexed contracts across "@
            + formatter::scope_spec(topology) + ".\n\n"@);
        let indexed = formatter::indexed_spec(result.endpoints@.len(), result.calls@.len());
        let banner = formatter::graphql_banner_spec(
            result.detected_graphql_libraries.deep_view(),
            result.graphql_operations_indexed,
        );
        assert(body == before + changes + indexed + banner + verified_part(result));
        lemma_step(before, changes, part);
        lemma_step(before + changes, indexed, part);
        lemma_step(before + changes + indexed, banner, part);
        lemma_step(before + changes + indexed + banner, verified_part(result), part);
        let start = "<!-- CARRICK_OUTPUT_START -->\n"@;
        lemma_step(start, body, part);
        lemma_step(start + body, "<!-- CARRICK_OUTPUT_END -->\n"@, part);
    }
}

/// The report names every endpoint that the pull request adds.
pub proof fn law_new_endpoint_named(
    result: ApiAnalysisResult,
    topology: Topology,
    delta: PrDelta,
    i: int,
)
    requires
        0 <= i < delta.new_endpoints@.len(),
    ensures
        holds(
            formatter::report(result, topology, Some(delta)),
            "- New endpoint "@ + operation(delta.new_endpoints@[i]) + "\n"@,
        ),
{
    lemma_new_line(delta.new_endpoints@, i);
    lemma_changes(
        result,
        topology,
        delta,
        "- New endpoint "@ + operation(delta.new_endpoints@[i]) + "\n"@,
    );
}

/// The report names every endpoint that the pull request removes, and flags it
/// exactly where one of the findings is a missing endpoint of the same route.
pub proof fn law_removed_endpoint_named(
    result: ApiAnalysisResult,
    topology: Topology,
    delta: PrDelta,
    i: int,
)
    requires
        0 <= i < delta.removed_endpoints@.len(),
    ensures
        holds(
            formatter::report(result, topology, Some(delta)),
            removed_line(
                delta.removed_endpoints@[i],
                exists|k: int|
                    0 <= k < result.findings@.len() && misses(
                        #[trigger] result.findings@[k],
                        delta.removed_endpoints@[i],
                    ),
            ),
        ),
{
    let missing = formatter::missing_of(result.findings@);
    let e = delta.removed_endpoints@[i];
    lemma_removed_line(delta.removed_endpoints@, missing, i);
    lemma_misses(e, result.findings@);
    lemma_changes(
        result,
        topology,
        delta,
        removed_line(e, formatter::still_consumed(e, missing)),
    );
}

// ---------------------------------------------------------------------------
// What the verdict counts
// ---------------------------------------------------------------------------

pub proof fn lemma_joined(parts: Seq<Seq<char>>, sep: Seq<char>, i: int)
    requires
        0 <= i < parts.len(),
    ensures
        holds(text::join_spec(parts, sep), parts[i]),
    decreases parts.len(),
{
    if parts.len() == 1 {
        lemma_holds_itself(parts[0]);
    } else {
        let before = text::join_spec(parts.drop_last(), sep);
        if i < parts.len() - 1 {
            lemma_joined(parts.drop_last(), sep, i);
            lemma_holds_in_sum(before, sep, parts[i]);
        } else {
            lemma_holds_itself(parts.last());
        }
        lemma_holds_in_sum(before + sep, parts.last(), parts[i]);
    }
}

proof fn lemma_joined_human(parts: Seq<Seq<char>>, i: int)
    requires
        0 <= i < parts.len(),
    ensures
        holds(formatter::join_human_spec(parts), parts[i]),
{
    if parts.len() < 2 {
        lemma_joined(parts, ", "@, i);
    } else {
        let before = text::join_spec(parts.drop_last(), ", "@);
        if i < parts.len() - 1 {
            lemma_joined(parts.drop_last(), ", "@, i);
            lemma_holds_in_sum(before, " and "@, parts[i]);
        } else {
            lemma_holds_itself(parts.last());
        }
        lemma_holds_in_sum(before + " and "@, parts.last(), parts[i]);
    }
}

/// A number of things.
pub open spec fn number_of(n: nat, thing: Seq<char>) -> Seq<char> {
    text::decimal(n) + thing + (if n == 1 {
        ""@
    } else {
        "s"@
    })
}

/// Whether there is more than one service to match across.
pub open spec fn is_several(topology: Topology) -> bool {
    topology.peer_repo_count > 0 || topology.local_service_count > 1
}

/// The verdict counts the contract risks, the missing and orphaned endpoints and
/// the conflicts between versions, each where there are any.
pub proof fn law_verdict_counts(
    result: ApiAnalysisResult,
    topology: Topology,
    delta: Option<PrDelta>,
)
    requires
        result.findings@.len() > 0,
    ensures
        ({
            let findings = result.findings@;
            let report = formatter::report(result, topology, delta);
            let risks = count(findings, |f: Finding| is_contract_risk(f));
            let connectivity = count(findings, |f: Finding| f is MissingEndpoint) + count(
                findings,
                |f: Finding| f is OrphanedEndpoint,
            );
            let dependencies = count(findings, |f: Finding| is_major_conflict(f)) + count(
                findings,
                |f: Finding| is_minor_conflict(f),
            );
            &&& risks > 0 ==> holds(report, number_of(risks, " contract risk"@))
            &&& connectivity > 0 ==> holds(
                report,
                number_of(
                    connectivity,
                    if is_several(topology) {
                        " connectivity gap"@
                    } else {
                        " connectivity observation"@
                    },
                ),
            )
            &&& dependencies > 0 ==> holds(report, number_of(dependencies, " dependency conflict"@))
        }),
{
    let findings = result.findings@;
    lemma_kinds(findings);
    let risks = formatter::risks_of(findings).len();
    let connectivity = formatter::missing_of(findings).len() + formatter::orphaned_of(
        findings,
    ).len();
    let dependencies = formatter::major_of(findings).len() + formatter::advisory_of(findings).len();
    let configuration = formatter::groups_of(formatter::env_calls_of(findings)).len();
    let several = is_several(topology);
    if risks > 0 {
        let i = lemma_risk_phrase(risks, connectivity, dependencies, configuration, several);
        lemma_phrase(result, topology, delta, i, number_of(risks, " contract risk"@));
    }
    if connectivity > 0 {
        let i = lemma_gap_phrase(risks, connectivity, dependencies, configuration, several);
        lemma_phrase(
            result,
            topology,
            delta,
            i,
            number_of(
                connectivity,
                if several {
                    " connectivity gap"@
                } else {
                    " connectivity observation"@
                },
            ),
        );
    }
    if dependencies > 0 {
        let i = lemma_conflict_phrase(risks, connectivity, dependencies, configuration, several);
        lemma_phrase(result, topology, delta, i, number_of(dependencies, " dependency conflict"@));
    }
}

proof fn lemma_risk_phrase(
    risks: nat,
    connectivity: nat,
    dependencies: nat,
    configuration: nat,
    several: bool,
) -> (i: int)
    requires
        risks > 0,
    ensures
        ({
            let phrases = formatter::verdict_phrases(
                risks,
                connectivity,
                dependencies,
                configuration,
                several,
            );
            0 <= i < phrases.len() && holds(phrases[i], number_of(risks, " contract risk"@))
        }),
{
    let part = number_of(risks, " contract risk"@);
    let phrase = "**"@ + text::decimal(risks) + " contract risk"@ + formatter::plural_spec(risks)
        + "**"@;
    assert(phrase =~= "**"@ + part + "**"@);
    lemma_holds("**"@, part, "**"@);
    let phrases = formatter::verdict_phrases(
        risks,
        connectivity,
        dependencies,
        configuration,
        several,
    );
    assert(phrases[0] == phrase);
    0
}

proof fn lemma_gap_phrase(
    risks: nat,
    connectivity: nat,
    dependencies: nat,
    configuration: nat,
    several: bool,
) -> (i: int)
    requires
        connectivity > 0,
    ensures
        ({
            let phrases = formatter::verdict_phrases(
                risks,
                connectivity,
                dependencies,
                configuration,
                several,
            );
            0 <= i < phrases.len() && holds(
                phrases[i],
                number_of(
                    connectivity,
                    if several {
                        " connectivity gap"@
                    } else {
                        " connectivity observation"@
                    },
                ),
            )
        }),
{
    reveal_strlit(" ");
    reveal_strlit("connectivity gap");
    reveal_strlit(" connectivity gap");
    reveal_strlit("connectivity observation");
    reveal_strlit(" connectivity observation");
    assert(" "@ + "connectivity gap"@ =~= " connectivity gap"@);
    assert(" "@ + "connectivity observation"@ =~= " connectivity observation"@);
    let name = if several {
        "connectivity gap"@
    } else {
        "connectivity observation"@
    };
    let part = number_of(connectivity, " "@ + name);
    let phrase = text::decimal(connectivity) + " "@ + name + formatter::plural_spec(connectivity);
    assert(phrase =~= part);
    lemma_holds_itself(part);
    let phrases = formatter::verdict_phrases(
        risks,
        connectivity,
        dependencies,
        configuration,
        several,
    );
    let i: int = if risks > 0 {
        1
    } else {
        0
    };
    assert(phrases[i] == phrase);
    i
}

proof fn lemma_conflict_phrase(
    risks: nat,
    connectivity: nat,
    dependencies: nat,
    configuration: nat,
    several: bool,
) -> (i: int)
    requires
        dependencies > 0,
    ensures
        ({
            let phrases = formatter::verdict_phrases(
                risks,
                connectivity,
                dependencies,
                configuration,
                several,
            );
            0 <= i < phrases.len() && holds(
                phrases[i],
                number_of(dependencies, " dependency conflict"@),
            )
        }),
{
    let part = number_of(dependencies, " dependency conflict"@);
    let phrase = text::decimal(dependencies) + " dependency conflict"@ + formatter::plural_spec(
        dependencies,
    );
    assert(phrase =~= part);
    lemma_holds_itself(part);
    let phrases = formatter::verdict_phrases(
        risks,
        connectivity,
        dependencies,
        configuration,
        several,
    );
    let first: int = if risks > 0 {
        1
    } else {
        0
    };
    let second: int = if connectivity > 0 {
        1
    } else {
        0
    };
    assert(phrases[first + second] == phrase);
    first + second
}

proof fn lemma_phrase(
    result: ApiAnalysisResult,
    topology: Topology,
    delta: Option<PrDelta>,
    i: int,
    part: Seq<char>,
)
    requires
        result.findings@.len() > 0,
        ({
            let findings = result.findings@;
            let phrases = formatter::verdict_phrases(
                formatter::risks_of(findings).len(),
                formatter::missing_of(findings).len() + formatter::orphaned_of(findings).len(),
                formatter::major_of(findings).len() + formatter::advisory_of(findings).len(),
                formatter::groups_of(formatter::env_calls_of(findings)).len(),
                formatter::baseline(topology),
            );
            0 <= i < phrases.len() && holds(phrases[i], part)
        }),
    ensures
        holds(formatter::report(result, topology, delta), part),
{
    let findings = result.findings@;
    let connectivity = formatter::missing_of(findings).len() + formatter::orphaned_of(
        findings,
    ).len();
    let phrases = formatter::verdict_phrases(
        formatter::risks_of(findings).len(),
        connectivity,
        formatter::major_of(findings).len() + formatter::advisory_of(findings).len(),
        formatter::groups_of(formatter::env_calls_of(findings)).len(),
        formatter::baseline(topology),
    );
    lemma_joined_human(phrases, i);
    let summary = formatter::join_human_spec(phrases);
    lemma_holds_through(summary, phrases[i], part);
    let whole = verdict(result, topology);
    let kind = if formatter::risks_of(findings).len() > 0 {
        "CAUTION"@
    } else if formatter::issue_count(findings, formatter::baseline(topology)) > 0 {
        "WARNING"@
    } else {
        "NOTE"@
    };
    let before = "> [!"@ + kind + "]\n> "@;
    let first = if !formatter::baseline(topology) && connectivity > 0 {
        " First repo indexed, so connectivity findings are informational."@
    } else {
        ""@
    };
    let rest = " across "@ + formatter::scope_spec(topology) + "."@ + first;
    assert(whole =~= before + summary + rest);
    lemma_holds(before, summary, rest);
    lemma_holds_through(whole, summary, part);
    lemma_report(result, topology, delta, part);
}

/// What the report ranges over: the repositories, this one and its peers, where
/// there are peers; else the services, where there are several; else the
/// repository by its name.
pub open spec fn is_scope(topology: Topology, scope: Seq<char>) -> bool {
    if topology.peer_repo_count > 0 {
        scope == text::decimal((1 + topology.peer_repo_count) as nat) + " repos"@
    } else if topology.local_service_count > 1 {
        scope == text::decimal(topology.local_service_count as nat) + " services"@
    } else {
        scope == topology.repo_name@
    }
}

/// The report says what it ranges over, and how much was indexed.
pub proof fn law_scope_and_extent(
    result: ApiAnalysisResult,
    topology: Topology,
    delta: Option<PrDelta>,
    scope: Seq<char>,
)
    requires
        is_scope(topology, scope),
    ensures
        holds(formatter::report(result, topology, delta), " across "@ + scope + "."@),
        holds(
            formatter::report(result, topology, delta),
            "Indexed **"@ + text::decimal(result.endpoints@.len()) + " endpoints** and **"@
                + text::decimal(result.calls@.len()) + " cross-service calls**.\n\n"@,
        ),
{
    let part = " across "@ + scope + "."@;
    let extent = formatter::indexed_spec(result.endpoints@.len(), result.calls@.len());
    assert(formatter::scope_spec(topology) == scope);
    lemma_holds_itself(extent);
    if result.findings@.len() > 0 {
        let findings = result.findings@;
        let connectivity = formatter::missing_of(findings).len() + formatter::orphaned_of(
            findings,
        ).len();
        let first = if !formatter::baseline(topology) && connectivity > 0 {
            " First repo indexed, so connectivity findings are informational."@
        } else {
            ""@
        };
        let phrases = formatter::verdict_phrases(
            formatter::risks_of(findings).len(),
            connectivity,
            formatter::major_of(findings).len() + formatter::advisory_of(findings).len(),
            formatter::groups_of(formatter::env_calls_of(findings)).len(),
            formatter::baseline(topology),
        );
        let summary = if phrases.len() == 0 {
            "Nothing to flag"@
        } else {
            formatter::join_human_spec(phrases)
        };
        let kind = if formatter::risks_of(findings).len() > 0 {
            "CAUTION"@
        } else if formatter::issue_count(findings, formatter::baseline(topology)) > 0 {
            "WARNING"@
        } else {
            "NOTE"@
        };
        let before = "> [!"@ + kind + "]\n> "@ + summary;
        assert(verdict(result, topology) =~= before + part + first);
        lemma_holds(before, part, first);
        lemma_report(result, topology, delta, part);
        lemma_report(result, topology, delta, extent);
    } else {
        reveal_strlit("> [!TIP]\n> All cross-service calls match the indexed contracts across ");
        reveal_strlit("> [!TIP]\n> All cross-service calls match the indexed contracts");
        reveal_strlit(" across ");
        reveal_strlit(".\n\n");
        reveal_strlit(".");
        reveal_strlit("\n\n");
        let tip = "> [!TIP]\n> All cross-service calls match the indexed contracts"@;
        let said = "> [!TIP]\n> All cross-service calls match the indexed contracts across "@ + scope
            + ".\n\n"@;
        assert("> [!TIP]\n> All cross-service calls match the indexed contracts across "@ =~= tip
            + " across "@);
        assert(".\n\n"@ =~= "."@ + "\n\n"@);
        assert(said =~= tip + part + "\n\n"@);
        lemma_holds(tip, part, "\n\n"@);
        lemma_clean(result, topology, delta, part);
        lemma_clean(result, topology, delta, extent);
    }
}

proof fn lemma_clean(
    result: ApiAnalysisResult,
    topology: Topology,
    delta: Option<PrDelta>,
    part: Seq<char>,
)
    requires
        result.findings@.len() == 0,
        holds(
            "> [!TIP]\n> All cross-service calls match the indexed contracts across "@
                + formatter::scope_spec(topology) + ".\n\n"@,
            part,
        ) || holds(formatter::indexed_spec(result.endpoints@.len(), result.calls@.len()), part),
    ensures
        holds(formatter::report(result, topology, delta), part),
{
    let t0 = "<!-- CARRICK_ISSUE_COUNT:0 -->\n"@ + formatter::header_spec(topology);
    let tip = "> [!TIP]\n> All cross-service calls match the indexed contracts across "@
        + formatter::scope_spec(topology) + ".\n\n"@;
    let changes = formatter::pr_delta_spec(delta, Seq::empty());
    let extent = formatter::indexed_spec(result.endpoints@.len(), result.calls@.len());
    let banner = formatter::graphql_banner_spec(
        result.detected_graphql_libraries.deep_view(),
        result.graphql_operations_indexed,
    );
    let body = formatter::clean_body(result, topology, delta);
    assert(body == t0 + tip + changes + extent + banner + verified_part(result));
    lemma_step(t0, tip, part);
    lemma_step(t0 + tip, changes, part);
    lemma_step(t0 + tip + changes, extent, part);
    lemma_step(t0 + tip + changes + extent, banner, part);
    lemma_step(t0 + tip + changes + extent + banner, verified_part(result), part);
    let start = "<!-- CARRICK_OUTPUT_START -->\n"@;
    lemma_step(start, body, part);
    lemma_step(start + body, "<!-- CARRICK_OUTPUT_END -->\n"@, part);
}

// ---------------------------------------------------------------------------
// Phrases and places
// ---------------------------------------------------------------------------

/// Phrases are joined with commas, and the last one with `and`.
pub proof fn law_joined_phrases(a: Seq<char>, b: Seq<char>, c: Seq<char>)
    ensures
        formatter::join_human_spec(seq![a]) == a,
        formatter::join_human_spec(seq![a, b]) == a + " and "@ + b,
        formatter::join_human_spec(seq![a, b, c]) == a + ", "@ + b + " and "@ + c,
{
    let one = seq![a];
    let two = seq![a, b];
    let three = seq![a, b, c];
    assert(two.drop_last() =~= one);
    assert(three.drop_last() =~= two);
    assert(text::join_spec(one, ", "@) == a);
    assert(text::join_spec(two, ", "@) == a + ", "@ + b);
}

/// The header names the services of a monorepo by their number, a repository
/// without peers by its name, and else nothing.
pub proof fn law_header(topology: Topology)
    ensures
        topology.local_service_count > 1 ==> formatter::header_suffix_spec(topology)
            == " · monorepo ("@ + text::decimal(topology.local_service_count as nat)
            + " services)"@,
        topology.local_service_count <= 1 && topology.peer_repo_count == 0
            ==> formatter::header_suffix_spec(topology) == " · "@ + topology.repo_name@,
        topology.local_service_count <= 1 && topology.peer_repo_count > 0
            ==> formatter::header_suffix_spec(topology).len() == 0,
{
    reveal_strlit("");
}

proof fn lemma_location_line(locations: Seq<Seq<char>>, i: int)
    requires
        0 <= i < locations.len(),
    ensures
        holds(formatter::location_lines(locations), "    - `"@ + locations[i] + "`\n"@),
    decreases locations.len(),
{
    let part = "    - `"@ + locations[i] + "`\n"@;
    let before = formatter::location_lines(locations.drop_last());
    let last = "    - `"@ + locations.last() + "`\n"@;
    assert(formatter::location_lines(locations) =~= before + last);
    if i < locations.len() - 1 {
        lemma_location_line(locations.drop_last(), i);
    } else {
        lemma_holds_itself(part);
    }
    lemma_holds_in_sum(before, last, part);
}

/// The lines of a group count its call sites and list them, the first three where
/// there are more, with the number of the others.
pub proof fn law_group_lists_its_sites(g: formatter::GroupModel, i: int)
    requires
        0 <= i < g.locations.len(),
    ensures
        i < 3 ==> holds(formatter::group_lines(g), "    - `"@ + g.locations[i] + "`\n"@),
        holds(
            formatter::group_lines(g),
            "("@ + number_of(g.locations.len(), " call site"@) + ")\n"@,
        ),
        g.locations.len() > 3 ==> holds(
            formatter::group_lines(g),
            "    - … +"@ + text::decimal((g.locations.len() - 3) as nat) + " more\n"@,
        ),
{
    let n = g.locations.len();
    reveal_strlit("]** (");
    reveal_strlit("]** ");
    reveal_strlit("(");
    assert("]** ("@ =~= "]** "@ + "("@);
    let listed = if n > 3 {
        g.locations.take(3)
    } else {
        g.locations
    };
    let lines = formatter::location_lines(listed);
    let more = if n > 3 {
        "    - … +"@ + text::decimal((n - 3) as nat) + " more\n"@
    } else {
        ""@
    };
    let lead = "  - `"@ + g.key.method + " "@ + g.key.path + "` using **["@ + g.key.env_var
        + "]** "@;
    let part = "("@ + number_of(n, " call site"@) + ")\n"@;
    let whole = formatter::group_lines(g);
    assert(whole =~= lead + part + (lines + more));
    lemma_holds(lead, part, lines + more);
    assert(whole =~= (lead + part) + lines + more);
    lemma_holds(lead + part, lines, more);
    if i < 3 {
        let line = "    - `"@ + g.locations[i] + "`\n"@;
        assert(listed[i] == g.locations[i]);
        lemma_location_line(listed, i);
        lemma_holds_through(whole, lines, line);
    }
    if n > 3 {
        assert(whole =~= (lead + part + lines) + more + Seq::empty());
        lemma_holds(lead + part + lines, more, Seq::empty());
    }
}

/// The banner on GraphQL stands in the report exactly where a library was
/// detected and nothing was indexed, and names the library.
pub proof fn law_graphql_banner(libraries: Seq<Seq<char>>, indexed: bool, i: int)
    ensures
        libraries.len() == 0 || indexed ==> formatter::graphql_banner_spec(libraries, indexed).len()
            == 0,
        0 <= i < libraries.len() && !indexed ==> holds(
            formatter::graphql_banner_spec(libraries, indexed),
            "`"@ + libraries[i] + "`"@,
        ),
{
    reveal_strlit("");
    if 0 <= i < libraries.len() && !indexed {
        let distinct = crate::sorting::distinct_texts(libraries);
        crate::sorting::law_distinct_texts(libraries);
        assert(libraries.contains(libraries[i]));
        assert(distinct.contains(libraries[i]));
        let k = choose|k: int| 0 <= k < distinct.len() && distinct[k] == libraries[i];
        let quoted = distinct.map_values(|l: Seq<char>| "`"@ + l + "`"@);
        let part = "`"@ + libraries[i] + "`"@;
        assert(quoted[k] == part);
        let joined = text::join_spec(quoted, ", "@);
        lemma_joined(quoted, ", "@, k);
        let lead = "> [!NOTE]\n> **GraphQL detected** ("@;
        let rest = "), but no schema or operation documents were found. Carrick extracts GraphQL contracts from SDL (`.graphql`/`.gql` files, `gql` template literals). If your schema is code-first (Pothos, TypeGraphQL, Nexus), commit the emitted `schema.graphql` to index it. Relay compiled artifacts and persisted queries are out of scope.\n\n"@;
        lemma_holds_in_sum(lead, joined, part);
        lemma_holds_in_sum(lead + joined, rest, part);
    }
}

} // verus!
