//! File names that do not collide.

use vstd::prelude::*;

use crate::text;

verus! {

/// A name with its path separators replaced by underscores.
pub open spec fn sanitized(name: Seq<char>) -> Seq<char> {
    text::replace_char_spec(text::replace_char_spec(name, '/', "_"@), '\\', "_"@)
}

/// A name with its path separators replaced by underscores.
pub fn sanitize(name: &str) -> (r: String)
    ensures
        r@ == sanitized(name@),
{
    let a = text::replace_char(name, '/', "_");
    text::replace_char(&a, '\\', "_")
}

/// How often a name occurs.
pub open spec fn occurrences(names: Seq<Seq<char>>, name: Seq<char>) -> nat
    decreases names.len(),
{
    if names.len() == 0 {
        0
    } else {
        occurrences(names.drop_last(), name) + if names.last() == name {
            1nat
        } else {
            0nat
        }
    }
}

/// A base with a number behind it.
pub open spec fn numbered(base: Seq<char>, n: nat) -> Seq<char> {
    base + "_"@ + text::decimal(n)
}

/// The first number from `n` on with which a base is not among the taken names,
/// looked for in at most so many further steps.
pub open spec fn free_number(
    base: Seq<char>,
    n: nat,
    taken: Seq<Seq<char>>,
    steps: nat,
) -> nat
    decreases steps,
{
    if steps == 0 || !text::among(numbered(base, n), taken) {
        n
    } else {
        free_number(base, n + 1, taken, (steps - 1) as nat)
    }
}

/// The name for the next use of a base, given all the bases and the names given
/// before: the base itself at first, then the base with a number that makes it
/// unlike any of them.
pub open spec fn next_stem(
    base: Seq<char>,
    uses: nat,
    bases: Seq<Seq<char>>,
    given: Seq<Seq<char>>,
) -> Seq<char> {
    if uses == 0 {
        base
    } else {
        let taken = bases + given;
        numbered(base, free_number(base, uses, taken, taken.len()))
    }
}

/// The names given to the first bases.
pub open spec fn first_stems(bases: Seq<Seq<char>>, count: nat) -> Seq<Seq<char>>
    decreases count,
{
    if count == 0 || count > bases.len() {
        Seq::empty()
    } else {
        let given = first_stems(bases, (count - 1) as nat);
        let base = bases[count - 1];
        given.push(next_stem(base, occurrences(bases.take(count - 1), base), bases, given))
    }
}

/// The names given to a sequence of bases: the first use of a base keeps it, a
/// later one is numbered.
pub open spec fn stems(bases: Seq<Seq<char>>) -> Seq<Seq<char>> {
    first_stems(bases, bases.len())
}

/// Whether a name is a base, or a base with a number behind it.
pub open spec fn is_named_after(name: Seq<char>, base: Seq<char>) -> bool {
    name == base || exists|n: nat| name == #[trigger] numbered(base, n)
}

fn find_free_number(base: &str, uses: usize, bases: &Vec<String>, given: &Vec<String>) -> (r: u128)
    ensures
        ({
            let taken = bases.deep_view() + given.deep_view();
            r == free_number(base@, uses as nat, taken, taken.len())
        }),
{
    let ghost b = bases.deep_view();
    let ghost g = given.deep_view();
    let ghost taken = b + g;
    let mut n: u128 = uses as u128;
    let mut steps: u128 = bases.len() as u128 + given.len() as u128;
    while steps > 0
        invariant
            b == bases.deep_view(),
            g == given.deep_view(),
            taken == b + g,
            n + steps <= 3 * usize::MAX,
            free_number(base@, uses as nat, taken, taken.len()) == free_number(
                base@,
                n as nat,
                taken,
                steps as nat,
            ),
        decreases steps,
    {
        let name = text::cat3(base, "_", &text::decimal_text_wide(n));
        let used = text::is_among(&name, bases) || text::is_among(&name, given);
        assert(used == text::among(name@, taken)) by {
            lemma_among_sum(name@, b, g);
        }
        if !used {
            return n;
        }
        n = n + 1;
        steps = steps - 1;
    }
    n
}

proof fn lemma_among_sum(name: Seq<char>, a: Seq<Seq<char>>, b: Seq<Seq<char>>)
    ensures
        text::among(name, a + b) <==> text::among(name, a) || text::among(name, b),
{
    if text::among(name, a) {
        let i = choose|i: int| 0 <= i < a.len() && a[i] == name;
        assert((a + b)[i] == name);
    }
    if text::among(name, b) {
        let i = choose|i: int| 0 <= i < b.len() && b[i] == name;
        assert((a + b)[a.len() + i] == name);
    }
    if text::among(name, a + b) {
        let i = choose|i: int| 0 <= i < (a + b).len() && (a + b)[i] == name;
        if i < a.len() {
            assert(a[i] == name);
        } else {
            assert(b[i - a.len()] == name);
        }
    }
}

/// Gives each base a name unlike the others: the first use of a base keeps it,
/// a later one is numbered.
pub fn unique_stems(bases: &Vec<String>) -> (r: Vec<String>)
    ensures
        r.deep_view() == stems(bases.deep_view()),
        r@.len() == bases@.len(),
        r.deep_view().no_duplicates(),
        forall|i: int|
            0 <= i < r@.len() ==> is_named_after(
                #[trigger] r.deep_view()[i],
                bases.deep_view()[i],
            ),
{
    let ghost b = bases.deep_view();
    let mut out: Vec<String> = Vec::new();
    assert(out.deep_view() =~= Seq::empty());
    let mut i: usize = 0;
    while i < bases.len()
        invariant
            i <= bases@.len(),
            b == bases.deep_view(),
            out.deep_view() == first_stems(b, i as nat),
        decreases bases@.len() - i,
    {
        let mut uses: usize = 0;
        let mut j: usize = 0;
        while j < i
            invariant
                j <= i < bases@.len(),
                b == bases.deep_view(),
                uses == occurrences(b.take(j as int), b[i as int]),
                uses <= j,
            decreases i - j,
        {
            assert(b.take(j + 1).drop_last() =~= b.take(j as int));
            assert(b[j as int] == bases@[j as int]@);
            assert(b[i as int] == bases@[i as int]@);
            if text::same_text(&bases[j], &bases[i]) {
                uses += 1;
            }
            j += 1;
        }
        let name = if uses == 0 {
            bases[i].clone()
        } else {
            let n = find_free_number(&bases[i], uses, bases, &out);
            text::cat3(&bases[i], "_", &text::decimal_text_wide(n))
        };
        assert(b[i as int] == bases@[i as int]@);
        text::push_deep(&mut out, name);
        i += 1;
    }
    proof {
        law_stems_distinct(b);
        assert(out.deep_view().len() == out@.len());
    }
    out
}

/// Two numbers with the same decimal form are equal.
pub proof fn lemma_decimal_injective(a: nat, b: nat)
    requires
        text::decimal(a) == text::decimal(b),
    ensures
        a == b,
    decreases a,
{
    let x = text::decimal(a);
    let y = text::decimal(b);
    lemma_decimal_nonempty(a / 10);
    lemma_decimal_nonempty(b / 10);
    assert(x.last() == text::digit((a % 10) as int)) by {
        if a < 10 {
            assert(a % 10 == a);
        }
    }
    assert(y.last() == text::digit((b % 10) as int)) by {
        if b < 10 {
            assert(b % 10 == b);
        }
    }
    if a >= 10 && b >= 10 {
        assert(x.drop_last() =~= text::decimal(a / 10));
        assert(y.drop_last() =~= text::decimal(b / 10));
        lemma_decimal_injective(a / 10, b / 10);
    }
}

proof fn lemma_decimal_nonempty(n: nat)
    ensures
        text::decimal(n).len() >= 1,
    decreases n,
{
    if n >= 10 {
        lemma_decimal_nonempty(n / 10);
    }
}

proof fn lemma_numbered_injective(base: Seq<char>, m: nat, n: nat)
    requires
        numbered(base, m) == numbered(base, n),
    ensures
        m == n,
{
    let k = base.len() + "_"@.len();
    assert(numbered(base, m).skip(k as int) =~= text::decimal(m));
    assert(numbered(base, n).skip(k as int) =~= text::decimal(n));
    lemma_decimal_injective(m, n);
}

proof fn lemma_free_number_at_least(base: Seq<char>, n: nat, taken: Seq<Seq<char>>, steps: nat)
    ensures
        free_number(base, n, taken, steps) >= n,
    decreases steps,
{
    if steps > 0 {
        lemma_free_number_at_least(base, n + 1, taken, (steps - 1) as nat);
    }
}

/// Where two lists take the same of the names from a number on, the same number
/// is free.
proof fn lemma_same_free_number(
    base: Seq<char>,
    n: nat,
    a: Seq<Seq<char>>,
    b: Seq<Seq<char>>,
    steps: nat,
)
    requires
        forall|m: nat|
            m >= n ==> (text::among(#[trigger] numbered(base, m), a) <==> text::among(
                numbered(base, m),
                b,
            )),
    ensures
        free_number(base, n, a, steps) == free_number(base, n, b, steps),
    decreases steps,
{
    if steps > 0 {
        lemma_same_free_number(base, n + 1, a, b, (steps - 1) as nat);
    }
}

/// With as many steps as there are taken names, a free number is found.
proof fn lemma_free_number(base: Seq<char>, n: nat, taken: Seq<Seq<char>>)
    ensures
        !text::among(numbered(base, free_number(base, n, taken, taken.len())), taken),
    decreases taken.len(),
{
    let name = numbered(base, n);
    if text::among(name, taken) {
        let k = choose|k: int| 0 <= k < taken.len() && taken[k] == name;
        let rest = taken.remove(k);
        assert forall|other: Seq<char>| other != name implies (#[trigger] text::among(other, taken)
            <==> text::among(other, rest)) by {
            if text::among(other, taken) {
                let i = choose|i: int| 0 <= i < taken.len() && taken[i] == other;
                if i < k {
                    assert(rest[i] == other);
                } else {
                    assert(rest[i - 1] == other);
                }
            }
            if text::among(other, rest) {
                let i = choose|i: int| 0 <= i < rest.len() && rest[i] == other;
                if i < k {
                    assert(taken[i] == other);
                } else {
                    assert(taken[i + 1] == other);
                }
            }
        }
        assert forall|m: nat| m >= n + 1 implies (text::among(#[trigger] numbered(base, m), taken)
            <==> text::among(numbered(base, m), rest)) by {
            if numbered(base, m) == name {
                lemma_numbered_injective(base, m, n);
            }
        }
        lemma_same_free_number(base, n + 1, taken, rest, rest.len());
        lemma_free_number(base, n + 1, rest);
        let found = free_number(base, n + 1, rest, rest.len());
        lemma_free_number_at_least(base, n + 1, rest, rest.len());
        assert(free_number(base, n, taken, taken.len()) == found);
        assert(text::among(numbered(base, found), taken) <==> text::among(
            numbered(base, found),
            rest,
        ));
    }
}

proof fn lemma_no_occurrences(names: Seq<Seq<char>>, name: Seq<char>)
    ensures
        occurrences(names, name) == 0 <==> !text::among(name, names),
    decreases names.len(),
{
    if names.len() > 0 {
        let front = names.drop_last();
        lemma_no_occurrences(front, name);
        assert(front + seq![names.last()] =~= names);
        lemma_among_sum(name, front, seq![names.last()]);
        assert(text::among(name, seq![names.last()]) <==> names.last() == name) by {
            if names.last() == name {
                assert(seq![names.last()][0] == name);
            }
        }
    }
}

/// What holds of the names given to the first bases.
proof fn lemma_first_stems(bases: Seq<Seq<char>>, count: nat)
    requires
        count <= bases.len(),
    ensures
        first_stems(bases, count).len() == count,
        first_stems(bases, count).no_duplicates(),
        forall|i: int|
            0 <= i < count ==> is_named_after(#[trigger] first_stems(bases, count)[i], bases[i]),
        forall|i: int|
            #![trigger first_stems(bases, count)[i]]
            0 <= i < count ==> if text::among(bases[i], bases.take(i)) {
                !text::among(first_stems(bases, count)[i], bases)
            } else {
                first_stems(bases, count)[i] == bases[i]
            },
    decreases count,
{
    if count > 0 {
        let last = count - 1;
        lemma_first_stems(bases, last as nat);
        let given = first_stems(bases, last as nat);
        let all = first_stems(bases, count);
        let base = bases[last];
        let uses = occurrences(bases.take(last), base);
        lemma_no_occurrences(bases.take(last), base);
        let taken = bases + given;
        lemma_free_number(base, uses, taken);
        let name = next_stem(base, uses, bases, given);
        lemma_among_sum(name, bases, given);
        assert(all =~= given.push(name));
        assert forall|i: int| 0 <= i < last implies given[i] != name by {
            if uses == 0 {
                if text::among(bases[i], bases.take(i)) {
                    assert(bases[last] == name);
                    assert(text::among(name, bases));
                } else {
                    assert(bases.take(last)[i] == bases[i]);
                }
            } else if given[i] == name {
                assert(text::among(name, given));
            }
        }
        assert forall|i: int| 0 <= i < count implies is_named_after(#[trigger] all[i], bases[i]) by {
            if i < last {
                assert(all[i] == given[i]);
            } else if uses > 0 {
                let n = free_number(base, uses, taken, taken.len());
                assert(name == numbered(base, n));
            }
        }
        assert forall|i: int|
            #![trigger all[i]]
            0 <= i < count implies if text::among(bases[i], bases.take(i)) {
            !text::among(all[i], bases)
        } else {
            all[i] == bases[i]
        } by {
            if i < last {
                assert(all[i] == given[i]);
            }
        }
    }
}

/// There is a name for each base, no two names are equal, and each is its base
/// or its base with a number behind it; the first use of a base keeps it.
pub proof fn law_stems_distinct(bases: Seq<Seq<char>>)
    ensures
        stems(bases).len() == bases.len(),
        stems(bases).no_duplicates(),
        forall|i: int|
            0 <= i < bases.len() ==> is_named_after(#[trigger] stems(bases)[i], bases[i]),
        forall|i: int|
            0 <= i < bases.len() && !text::among(bases[i], bases.take(i)) ==> #[trigger] stems(
                bases,
            )[i] == bases[i],
{
    lemma_first_stems(bases, bases.len());
}

proof fn lemma_decimal_lacks(n: nat, c: char)
    requires
        c < '0' || c > '9',
    ensures
        !text::decimal(n).contains(c),
    decreases n,
{
    if n >= 10 {
        lemma_decimal_lacks(n / 10, c);
        let front = text::decimal(n / 10);
        assert forall|k: int| 0 <= k < text::decimal(n).len() implies text::decimal(n)[k] != c by {
            if k < front.len() {
                assert(text::decimal(n)[k] == front[k]);
            }
        }
    }
}

/// A name made of a sanitized one leads to no other directory: it holds no
/// separator.
pub proof fn law_no_separators(name: Seq<char>, service: Seq<char>)
    requires
        is_named_after(name, sanitized(service)),
    ensures
        !name.contains('/'),
        !name.contains('\\'),
{
    reveal_strlit("_");
    let a = text::replace_char_spec(service, '/', "_"@);
    let base = sanitized(service);
    assert(!"_"@.contains('/') && !"_"@.contains('\\'));
    text::lemma_replace_char_lacks(service, '/', "_"@, '/');
    text::lemma_replace_char_lacks(a, '\\', "_"@, '/');
    text::lemma_replace_char_lacks(a, '\\', "_"@, '\\');
    if name != base {
        let n = choose|n: nat| name == #[trigger] numbered(base, n);
        lemma_decimal_lacks(n, '/');
        lemma_decimal_lacks(n, '\\');
        assert forall|k: int| 0 <= k < name.len() implies name[k] != '/' && name[k] != '\\' by {
            if k < base.len() {
                assert(name[k] == base[k]);
            } else if k > base.len() {
                assert(name[k] == text::decimal(n)[k - base.len() - 1]);
            }
        }
    }
}

} // verus!
