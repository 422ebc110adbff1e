//! Id patterns: the language in which an administrator says which links go.
//!
//! A pattern is matched against a whole id as the SQL operator `LIKE` does
//! it: `%` stands for any run of characters, `_` for any one character, and a
//! backslash makes the character after it stand for itself.

use vstd::prelude::*;
use vstd::string::StringExecFns;

verus! {

/// `text` matches `pattern`, from its first character to its last.
///
/// A backslash at the very end of a pattern has no character to protect and
/// stands for itself.
pub open spec fn like(pattern: Seq<char>, text: Seq<char>) -> bool
    decreases pattern.len(), text.len(),
{
    if pattern.len() == 0 {
        text.len() == 0
    } else if pattern[0] == '%' {
        like(pattern.drop_first(), text) || (text.len() > 0 && like(pattern, text.drop_first()))
    } else if text.len() == 0 {
        false
    } else if pattern[0] == '_' {
        like(pattern.drop_first(), text.drop_first())
    } else if pattern[0] == '\\' && pattern.len() >= 2 {
        text[0] == pattern[1] && like(pattern.skip(2), text.drop_first())
    } else {
        text[0] == pattern[0] && like(pattern.drop_first(), text.drop_first())
    }
}

/// The pattern that finds the texts holding `fragment`: the fragment between
/// two `%`.
pub open spec fn pattern_for(fragment: Seq<char>) -> Seq<char> {
    seq!['%'] + fragment + seq!['%']
}

/// Builds the pattern by which the links whose id holds `fragment` are
/// found. The fragment goes in as it is: a `%`, `_` or backslash in it keeps
/// the meaning that a pattern gives it.
pub fn containment_pattern(fragment: &str) -> (pattern: String)
    ensures
        pattern@ == pattern_for(fragment@),
{
    proof {
        reveal_strlit("%");
    }
    let mut pattern = String::from_str("%");
    pattern.append(fragment);
    pattern.append("%");
    proof {
        assert("%"@ =~= seq!['%']);
    }
    pattern
}

/// The characters of a text, one by one.
pub fn characters(text: &str) -> (chars: Vec<char>)
    ensures
        chars@ == text@,
{
    let mut chars: Vec<char> = Vec::new();
    for c in it: text.chars()
        invariant
            chars@ == text@.take(it.index() as int),
            it.seq() == text@,
    {
        chars.push(c);
    }
    chars
}

/// The last `count` characters of `text`.
spec fn suffix(text: Seq<char>, count: int) -> Seq<char> {
    text.skip(text.len() - count)
}

/// How matching a suffix of the pattern against a suffix of the text comes
/// down to matching shorter suffixes.
proof fn lemma_like_suffix(pattern: Seq<char>, a: int, text: Seq<char>, b: int)
    requires
        0 <= a <= pattern.len(),
        0 <= b <= text.len(),
    ensures
        like(suffix(pattern, a), suffix(text, b)) == (if a == 0 {
            b == 0
        } else if pattern[pattern.len() - a] == '%' {
            like(suffix(pattern, a - 1), suffix(text, b)) || (b > 0 && like(
                suffix(pattern, a),
                suffix(text, b - 1),
            ))
        } else if b == 0 {
            false
        } else if pattern[pattern.len() - a] == '_' {
            like(suffix(pattern, a - 1), suffix(text, b - 1))
        } else if pattern[pattern.len() - a] == '\\' && a >= 2 {
            text[text.len() - b] == pattern[pattern.len() - a + 1] && like(
                suffix(pattern, a - 2),
                suffix(text, b - 1),
            )
        } else {
            text[text.len() - b] == pattern[pattern.len() - a] && like(
                suffix(pattern, a - 1),
                suffix(text, b - 1),
            )
        }),
{
    let p = suffix(pattern, a);
    let t = suffix(text, b);
    if a > 0 {
        assert(p.drop_first() =~= suffix(pattern, a - 1));
        if a >= 2 {
            assert(p.skip(2) =~= suffix(pattern, a - 2));
        }
    }
    if b > 0 {
        assert(t.drop_first() =~= suffix(text, b - 1));
    }
}

/// The first `upto` cells of a row tell, for the last `a` characters of the
/// pattern, whether the last `y` characters of the text match them.
spec fn row_is_like(row: Seq<bool>, upto: int, pattern: Seq<char>, a: int, text: Seq<char>) -> bool {
    forall|y: int| 0 <= y < upto ==> #[trigger] row[y] == like(suffix(pattern, a), suffix(text, y))
}

/// Row `x` of the table is the full row for the last `x` characters of the
/// pattern.
spec fn table_is_like(table: Seq<Vec<bool>>, pattern: Seq<char>, text: Seq<char>) -> bool {
    forall|x: int|
        0 <= x < table.len() ==> {
            &&& (#[trigger] table[x])@.len() == text.len() + 1
            &&& row_is_like(table[x]@, (text.len() + 1) as int, pattern, x, text)
        }
}

/// One cell: whether the last `b` characters of the text match the last `a`
/// characters of the pattern, from the rows below and the cells before.
fn like_cell(
    pattern: &Vec<char>,
    text: &Vec<char>,
    table: &Vec<Vec<bool>>,
    row: &Vec<bool>,
    a: usize,
    b: usize,
) -> (value: bool)
    requires
        1 <= a <= pattern@.len(),
        b <= text@.len(),
        table@.len() == a,
        table_is_like(table@, pattern@, text@),
        row@.len() == b,
        row_is_like(row@, b as int, pattern@, a as int, text@),
    ensures
        value == like(suffix(pattern@, a as int), suffix(text@, b as int)),
{
    let n = pattern.len();
    let m = text.len();
    let c = pattern[n - a];
    proof {
        lemma_like_suffix(pattern@, a as int, text@, b as int);
        assert(table@[a - 1]@.len() == m + 1);
        if a >= 2 {
            assert(table@[a - 2]@.len() == m + 1);
        }
    }
    if c == '%' {
        table[a - 1][b] || (b > 0 && row[b - 1])
    } else if b == 0 {
        false
    } else if c == '_' {
        table[a - 1][b - 1]
    } else if c == '\\' && a >= 2 {
        text[m - b] == pattern[n - a + 1] && table[a - 2][b - 1]
    } else {
        text[m - b] == c && table[a - 1][b - 1]
    }
}

/// The row for the empty pattern: only the empty text matches it.
fn like_first_row(text: &Vec<char>) -> (row: Vec<bool>)
    ensures
        row@.len() == text@.len() + 1,
        forall|y: int| 0 <= y <= text@.len() ==> #[trigger] row@[y] == (y == 0),
{
    let m = text.len();
    let mut row: Vec<bool> = Vec::new();
    row.push(true);
    let mut b: usize = 0;
    while b < m
        invariant
            b <= m,
            row@.len() == b + 1,
            forall|y: int| 0 <= y <= b ==> #[trigger] row@[y] == (y == 0),
        decreases m - b,
    {
        row.push(false);
        b = b + 1;
    }
    row
}

/// The row for the last `a` characters of the pattern.
fn like_row(pattern: &Vec<char>, text: &Vec<char>, table: &Vec<Vec<bool>>, a: usize) -> (row: Vec<
    bool,
>)
    requires
        1 <= a <= pattern@.len(),
        table@.len() == a,
        table_is_like(table@, pattern@, text@),
    ensures
        row@.len() == text@.len() + 1,
        row_is_like(row@, (text@.len() + 1) as int, pattern@, a as int, text@),
{
    let m = text.len();
    let mut row: Vec<bool> = Vec::new();
    let first = like_cell(pattern, text, table, &row, a, 0);
    row.push(first);
    let mut b: usize = 0;
    while b < m
        invariant
            b <= m,
            m == text@.len(),
            1 <= a <= pattern@.len(),
            table@.len() == a,
            table_is_like(table@, pattern@, text@),
            row@.len() == b + 1,
            row_is_like(row@, b + 1, pattern@, a as int, text@),
        decreases m - b,
    {
        b = b + 1;
        let value = like_cell(pattern, text, table, &row, a, b);
        row.push(value);
    }
    row
}

/// Whether `text` matches `pattern`, both given as characters. The work
/// grows with the product of the two lengths, whatever the pattern holds.
pub fn like_chars(pattern: &Vec<char>, text: &Vec<char>) -> (yes: bool)
    ensures
        yes == like(pattern@, text@),
{
    let n = pattern.len();
    let m = text.len();
    let mut table: Vec<Vec<bool>> = Vec::new();
    let first = like_first_row(text);
    proof {
        assert forall|y: int| 0 <= y < m + 1 implies #[trigger] first@[y] == like(
            suffix(pattern@, 0),
            suffix(text@, y),
        ) by {
            lemma_like_suffix(pattern@, 0, text@, y);
        }
    }
    table.push(first);
    let mut a: usize = 0;
    while a < n
        invariant
            a <= n,
            n == pattern@.len(),
            m == text@.len(),
            table@.len() == a + 1,
            table_is_like(table@, pattern@, text@),
        decreases n - a,
    {
        a = a + 1;
        let row = like_row(pattern, text, &table, a);
        let ghost below = table@;
        table.push(row);
        proof {
            assert forall|x: int| 0 <= x < table@.len() implies {
                &&& (#[trigger] table@[x])@.len() == text@.len() + 1
                &&& row_is_like(table@[x]@, (text@.len() + 1) as int, pattern@, x, text@)
            } by {
                if x < below.len() {
                    assert(table@[x] == below[x]);
                }
            }
        }
    }
    proof {
        assert(suffix(pattern@, n as int) =~= pattern@);
        assert(suffix(text@, m as int) =~= text@);
        assert(table@[n as int]@.len() == m + 1);
    }
    table[n][m]
}

/// Whether `text` matches `pattern`.
pub fn like_match(pattern: &str, text: &str) -> (yes: bool)
    ensures
        yes == like(pattern@, text@),
{
    let pattern_chars = characters(pattern);
    let text_chars = characters(text);
    like_chars(&pattern_chars, &text_chars)
}

/// `fragment` stands in `text` at the position `at`, character for
/// character.
pub open spec fn occurs_at(fragment: Seq<char>, text: Seq<char>, at: int) -> bool {
    &&& 0 <= at
    &&& at + fragment.len() <= text.len()
    &&& text.subrange(at, at + fragment.len()) == fragment
}

/// `fragment` stands somewhere in `text`. The empty fragment stands in every
/// text.
pub open spec fn occurs_in(fragment: Seq<char>, text: Seq<char>) -> bool {
    exists|at: int| occurs_at(fragment, text, at)
}

/// No character of `fragment` means anything but itself in a pattern.
pub open spec fn is_plain(fragment: Seq<char>) -> bool {
    forall|i: int|
        0 <= i < fragment.len() ==> {
            let c = #[trigger] fragment[i];
            c != '%' && c != '_' && c != '\\'
        }
}

/// A lone `%` matches every text.
proof fn lemma_any_matches_all(text: Seq<char>)
    ensures
        like(seq!['%'], text),
    decreases text.len(),
{
    let any = seq!['%'];
    assert(any[0] == '%');
    if text.len() > 0 {
        lemma_any_matches_all(text.drop_first());
    } else {
        assert(any.drop_first().len() == 0);
        assert(like(any.drop_first(), text));
    }
}

/// A pattern that begins with `%` matches a text where the rest of the
/// pattern matches what is left of the text behind some position.
proof fn lemma_leading_any(rest: Seq<char>, text: Seq<char>)
    ensures
        like(seq!['%'] + rest, text) <==> exists|k: int|
            0 <= k <= text.len() && #[trigger] like(rest, text.skip(k)),
    decreases text.len(),
{
    let pattern = seq!['%'] + rest;
    assert(pattern[0] == '%');
    assert(pattern.drop_first() =~= rest);
    assert(text.skip(0) =~= text);
    if text.len() > 0 {
        let tail = text.drop_first();
        lemma_leading_any(rest, tail);
        if like(pattern, text) {
            if like(rest, text) {
                assert(like(rest, text.skip(0)));
            } else {
                assert(like(pattern, tail));
                let k = choose|k: int| 0 <= k <= tail.len() && #[trigger] like(rest, tail.skip(k));
                assert(tail.skip(k) =~= text.skip(k + 1));
                assert(like(rest, text.skip(k + 1)));
            }
        }
        if exists|k: int| 0 <= k <= text.len() && #[trigger] like(rest, text.skip(k)) {
            let k = choose|k: int| 0 <= k <= text.len() && #[trigger] like(rest, text.skip(k));
            if k > 0 {
                assert(tail.skip(k - 1) =~= text.skip(k));
                assert(like(rest, tail.skip(k - 1)));
                assert(like(pattern, tail));
            }
            assert(like(pattern, text));
        }
    } else {
        if like(pattern, text) {
            assert(like(rest, text.skip(0)));
        }
        if exists|k: int| 0 <= k <= text.len() && #[trigger] like(rest, text.skip(k)) {
            let k = choose|k: int| 0 <= k <= text.len() && #[trigger] like(rest, text.skip(k));
            assert(k == 0);
            assert(like(pattern, text));
        }
    }
}

/// A plain fragment followed by `%` matches the texts that begin with the
/// fragment.
proof fn lemma_plain_prefix(fragment: Seq<char>, text: Seq<char>)
    requires
        is_plain(fragment),
    ensures
        like(fragment + seq!['%'], text) <==> occurs_at(fragment, text, 0),
    decreases fragment.len(),
{
    let pattern = fragment + seq!['%'];
    if fragment.len() == 0 {
        assert(pattern =~= seq!['%']);
        lemma_any_matches_all(text);
        assert(text.subrange(0, 0) =~= fragment);
    } else {
        let c = fragment[0];
        assert(pattern[0] == c);
        assert(pattern.len() >= 2);
        assert(pattern.drop_first() =~= fragment.drop_first() + seq!['%']);
        if text.len() > 0 {
            let head = fragment.drop_first();
            let tail = text.drop_first();
            assert(is_plain(head)) by {
                assert forall|i: int| 0 <= i < head.len() implies {
                    let d = #[trigger] head[i];
                    d != '%' && d != '_' && d != '\\'
                } by {
                    assert(head[i] == fragment[i + 1]);
                }
            }
            lemma_plain_prefix(head, tail);
            if occurs_at(fragment, text, 0) {
                assert(text.subrange(0, fragment.len() as int)[0] == text[0]);
                assert(tail.subrange(0, head.len() as int) =~= head) by {
                    assert forall|i: int| 0 <= i < head.len() implies tail.subrange(
                        0,
                        head.len() as int,
                    )[i] == head[i] by {
                        assert(text.subrange(0, fragment.len() as int)[i + 1] == fragment[i + 1]);
                    }
                }
            }
            if text[0] == c && occurs_at(head, tail, 0) {
                assert(text.subrange(0, fragment.len() as int) =~= fragment) by {
                    assert forall|i: int| 0 <= i < fragment.len() implies text.subrange(
                        0,
                        fragment.len() as int,
                    )[i] == fragment[i] by {
                        if i > 0 {
                            assert(tail.subrange(0, head.len() as int)[i - 1] == head[i - 1]);
                        }
                    }
                }
            }
        }
    }
}

/// What a containment pattern means: around a plain fragment it matches the
/// texts that hold the fragment, and no others.
pub proof fn law_containment_pattern(fragment: Seq<char>, text: Seq<char>)
    requires
        is_plain(fragment),
    ensures
        like(pattern_for(fragment), text) <==> occurs_in(fragment, text),
{
    let rest = fragment + seq!['%'];
    assert(pattern_for(fragment) =~= seq!['%'] + rest);
    lemma_leading_any(rest, text);
    assert forall|k: int| 0 <= k <= text.len() implies (#[trigger] like(rest, text.skip(k))
        <==> occurs_at(fragment, text, k)) by {
        lemma_plain_prefix(fragment, text.skip(k));
        if k + fragment.len() <= text.len() {
            assert(text.skip(k).subrange(0, fragment.len() as int) =~= text.subrange(
                k,
                k + fragment.len(),
            ));
        }
    }
    if occurs_in(fragment, text) {
        let at = choose|at: int| occurs_at(fragment, text, at);
        assert(like(rest, text.skip(at)));
    }
}

} // verus!
