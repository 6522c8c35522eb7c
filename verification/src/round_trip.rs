//! Why placeholders survive a run: with names that hold no brace and no
//! angle bracket, protecting and restoring brings every token back.

use crate::placeholder::{first_missing, lemma_first_missing, marker, protect, restore, token};
use crate::text::{
    contains, find_first, lemma_find_first, lemma_replace_first_places, occurs_at, replace_first,
};
use vstd::prelude::*;

verus! {

/// A character that tokens and markers are made with.
pub open spec fn special(c: char) -> bool {
    c == '{' || c == '}' || c == '<' || c == '>'
}

/// A name that holds no brace and no angle bracket.
pub open spec fn plain(name: Seq<char>) -> bool {
    forall|k: int| 0 <= k < name.len() ==> !special(#[trigger] name[k])
}

/// Every name of `names` is plain, and no two of them are the same.
pub open spec fn plain_and_distinct(names: Seq<Seq<char>>) -> bool {
    &&& forall|j: int| 0 <= j < names.len() ==> plain(#[trigger] names[j])
    &&& forall|i: int, j: int| 0 <= i < j < names.len() ==> names[i] != names[j]
}

/// Two stretches of a text, each given by its start and its length, that
/// share no position.
pub open spec fn apart(i: int, a: nat, j: int, b: nat) -> bool {
    i + a <= j || j + b <= i
}

/// Where a pattern stands in a text, the text holds its characters.
proof fn lemma_char_at(s: Seq<char>, pat: Seq<char>, i: int, k: int)
    requires
        occurs_at(s, pat, i),
        0 <= k < pat.len(),
    ensures
        s[i + k] == pat[k],
{
    assert(s.subrange(i, i + pat.len())[k] == s[i + k]);
}

/// The characters of a token: a brace, the name, a brace.
proof fn lemma_token_chars(a: Seq<char>)
    ensures
        token(a).len() == a.len() as int + 2,
        token(a)[0] == '{',
        token(a)[a.len() as int + 1] == '}',
        forall|k: int| 0 < k <= a.len() ==> #[trigger] token(a)[k] == a[k - 1],
{
}

/// The characters of a marker: the opening tag, the name, the closing tag.
proof fn lemma_marker_chars(b: Seq<char>)
    ensures
        marker(b).len() == b.len() as int + 9,
        marker(b)[0] == '<',
        marker(b)[1] == 'p',
        marker(b)[2] == 'h',
        marker(b)[3] == '>',
        forall|k: int| 4 <= k < 4 + b.len() as int ==> #[trigger] marker(b)[k] == b[k - 4],
        marker(b)[b.len() as int + 4] == '<',
        marker(b)[b.len() as int + 5] == '/',
        marker(b)[b.len() as int + 6] == 'p',
        marker(b)[b.len() as int + 7] == 'h',
        marker(b)[b.len() as int + 8] == '>',
{
}

/// A marker of a plain name holds no brace.
proof fn lemma_marker_has_no_brace(b: Seq<char>, k: int)
    requires
        plain(b),
        0 <= k < marker(b).len(),
    ensures
        marker(b)[k] != '{',
        marker(b)[k] != '}',
{
    lemma_marker_chars(b);
    if 4 <= k < 4 + b.len() as int {
        assert(marker(b)[k] == b[k - 4]);
        assert(!special(b[k - 4]));
    }
}

/// A token and a marker of plain names do not overlap.
proof fn lemma_token_apart_from_marker(s: Seq<char>, a: Seq<char>, i: int, b: Seq<char>, j: int)
    requires
        plain(a),
        plain(b),
        occurs_at(s, token(a), i),
        occurs_at(s, marker(b), j),
    ensures
        apart(i, token(a).len(), j, marker(b).len()),
{
    lemma_token_chars(a);
    lemma_marker_chars(b);
    if !apart(i, token(a).len(), j, marker(b).len()) {
        lemma_char_at(s, token(a), i, 0);
        if j <= i {
            lemma_char_at(s, marker(b), j, i - j);
            lemma_marker_has_no_brace(b, i - j);
        } else {
            lemma_char_at(s, marker(b), j, 0);
            lemma_char_at(s, token(a), i, j - i);
            if j - i <= a.len() {
                assert(token(a)[j - i] == a[j - i - 1]);
                assert(!special(a[j - i - 1]));
            }
        }
    }
}

/// Two tokens of plain names that differ do not overlap, when the second
/// does not start before the first.
proof fn lemma_tokens_apart_ordered(s: Seq<char>, a: Seq<char>, i: int, b: Seq<char>, j: int)
    requires
        plain(a),
        plain(b),
        a != b,
        occurs_at(s, token(a), i),
        occurs_at(s, token(b), j),
        i <= j,
    ensures
        apart(i, token(a).len(), j, token(b).len()),
{
    lemma_token_chars(a);
    lemma_token_chars(b);
    if !apart(i, token(a).len(), j, token(b).len()) {
        lemma_char_at(s, token(b), j, 0);
        lemma_char_at(s, token(a), i, j - i);
        if 0 < j - i <= a.len() {
            assert(token(a)[j - i] == a[j - i - 1]);
            assert(!special(a[j - i - 1]));
        }
        assert(j == i);
        if a.len() == b.len() {
            assert forall|k: int| 0 <= k < a.len() implies a[k] == b[k] by {
                lemma_char_at(s, token(a), i, k + 1);
                lemma_char_at(s, token(b), i, k + 1);
                assert(token(a)[k + 1] == a[k]);
                assert(token(b)[k + 1] == b[k]);
            }
            assert(a =~= b);
        } else if a.len() < b.len() {
            lemma_char_at(s, token(a), i, a.len() as int + 1);
            lemma_char_at(s, token(b), i, a.len() as int + 1);
            assert(token(b)[a.len() as int + 1] == b[a.len() as int]);
            assert(!special(b[a.len() as int]));
        } else {
            lemma_char_at(s, token(a), i, b.len() as int + 1);
            lemma_char_at(s, token(b), i, b.len() as int + 1);
            assert(token(a)[b.len() as int + 1] == a[b.len() as int]);
            assert(!special(a[b.len() as int]));
        }
    }
}

/// Two tokens of plain names that differ do not overlap.
proof fn lemma_tokens_apart(s: Seq<char>, a: Seq<char>, i: int, b: Seq<char>, j: int)
    requires
        plain(a),
        plain(b),
        a != b,
        occurs_at(s, token(a), i),
        occurs_at(s, token(b), j),
    ensures
        apart(i, token(a).len(), j, token(b).len()),
{
    if i <= j {
        lemma_tokens_apart_ordered(s, a, i, b, j);
    } else {
        lemma_tokens_apart_ordered(s, b, j, a, i);
    }
}

/// Two markers of plain names that differ do not overlap, when the second
/// does not start before the first.
proof fn lemma_markers_apart_ordered(s: Seq<char>, a: Seq<char>, i: int, b: Seq<char>, j: int)
    requires
        plain(a),
        plain(b),
        a != b,
        occurs_at(s, marker(a), i),
        occurs_at(s, marker(b), j),
        i <= j,
    ensures
        apart(i, marker(a).len(), j, marker(b).len()),
{
    lemma_marker_chars(a);
    lemma_marker_chars(b);
    if !apart(i, marker(a).len(), j, marker(b).len()) {
        let d = j - i;
        lemma_char_at(s, marker(b), j, 0);
        lemma_char_at(s, marker(a), i, d);
        if 4 <= d < 4 + a.len() as int {
            assert(marker(a)[d] == a[d - 4]);
            assert(!special(a[d - 4]));
        }
        assert(d == 0 || d == a.len() as int + 4);
        if d == a.len() as int + 4 {
            lemma_char_at(s, marker(b), j, 1);
            lemma_char_at(s, marker(a), i, d + 1);
        } else if a.len() == b.len() {
            assert forall|k: int| 0 <= k < a.len() implies a[k] == b[k] by {
                lemma_char_at(s, marker(a), i, k + 4);
                lemma_char_at(s, marker(b), i, k + 4);
                assert(marker(a)[k + 4] == a[k]);
                assert(marker(b)[k + 4] == b[k]);
            }
            assert(a =~= b);
        } else if a.len() < b.len() {
            lemma_char_at(s, marker(a), i, a.len() as int + 4);
            lemma_char_at(s, marker(b), i, a.len() as int + 4);
            assert(marker(b)[a.len() as int + 4] == b[a.len() as int]);
            assert(!special(b[a.len() as int]));
        } else {
            lemma_char_at(s, marker(a), i, b.len() as int + 4);
            lemma_char_at(s, marker(b), i, b.len() as int + 4);
            assert(marker(a)[b.len() as int + 4] == a[b.len() as int]);
            assert(!special(a[b.len() as int]));
        }
    }
}

/// Two markers of plain names that differ do not overlap.
proof fn lemma_markers_apart(s: Seq<char>, a: Seq<char>, i: int, b: Seq<char>, j: int)
    requires
        plain(a),
        plain(b),
        a != b,
        occurs_at(s, marker(a), i),
        occurs_at(s, marker(b), j),
    ensures
        apart(i, marker(a).len(), j, marker(b).len()),
{
    if i <= j {
        lemma_markers_apart_ordered(s, a, i, b, j);
    } else {
        lemma_markers_apart_ordered(s, b, j, a, i);
    }
}

/// A replacement keeps what stands apart from what it replaces.
proof fn lemma_replace_keeps(s: Seq<char>, pat: Seq<char>, to: Seq<char>, q: Seq<char>, j: int)
    requires
        find_first(s, pat) matches Some(i) && occurs_at(s, pat, i) && apart(i, pat.len(), j, q.len()),
        occurs_at(s, q, j),
    ensures
        contains(replace_first(s, pat, to), q),
{
    let i = find_first(s, pat).unwrap();
    let r = replace_first(s, pat, to);
    if j + q.len() <= i {
        assert(r.subrange(j, j + q.len()) =~= s.subrange(j, j + q.len()));
        assert(occurs_at(r, q, j));
    } else {
        let at = j - pat.len() + to.len();
        assert(r.subrange(at, at + q.len()) =~= s.subrange(j, j + q.len()));
        assert(occurs_at(r, q, at));
    }
}

/// While the placeholders are protected one by one, the text holds the
/// marker of each name done and the token of each name to come.
proof fn lemma_protect_phase(text: Seq<char>, names: Seq<Seq<char>>, t: int)
    requires
        first_missing(text, names).is_none(),
        plain_and_distinct(names),
        0 <= t <= names.len(),
    ensures
        forall|j: int|
            0 <= j < t ==> contains(protect(text, names.take(t)), marker(#[trigger] names[j])),
        forall|j: int|
            t <= j < names.len() ==> contains(
                protect(text, names.take(t)),
                token(#[trigger] names[j]),
            ),
    decreases t,
{
    lemma_first_missing(text, names);
    if t == 0 {
        assert(names.take(0) =~= Seq::<Seq<char>>::empty());
    } else {
        lemma_protect_phase(text, names, t - 1);
        assert(names.take(t).drop_last() =~= names.take(t - 1));
        assert(names.take(t).last() == names[t - 1]);
        let before = protect(text, names.take(t - 1));
        let a = names[t - 1];
        let now = protect(text, names.take(t));
        assert(now == replace_first(before, token(a), marker(a)));
        assert(contains(before, token(a)));
        lemma_find_first(before, token(a));
        lemma_replace_first_places(before, token(a), marker(a));
        let i = find_first(before, token(a)).unwrap();
        assert forall|j: int| 0 <= j < t implies contains(now, marker(#[trigger] names[j])) by {
            if j < t - 1 {
                let b = names[j];
                let at = choose|at: int| occurs_at(before, marker(b), at);
                lemma_token_apart_from_marker(before, a, i, b, at);
                lemma_replace_keeps(before, token(a), marker(a), marker(b), at);
            }
        }
        assert forall|j: int| t <= j < names.len() implies contains(
            now,
            token(#[trigger] names[j]),
        ) by {
            let b = names[j];
            let at = choose|at: int| occurs_at(before, token(b), at);
            lemma_tokens_apart(before, a, i, b, at);
            lemma_replace_keeps(before, token(a), marker(a), token(b), at);
        }
    }
}

/// While the placeholders are restored one by one, the text holds the token
/// of each name done and the marker of each name to come.
proof fn lemma_restore_phase(shielded: Seq<char>, names: Seq<Seq<char>>, t: int)
    requires
        forall|j: int| 0 <= j < names.len() ==> contains(shielded, marker(#[trigger] names[j])),
        plain_and_distinct(names),
        0 <= t <= names.len(),
    ensures
        forall|j: int|
            0 <= j < t ==> contains(restore(shielded, names.take(t)), token(#[trigger] names[j])),
        forall|j: int|
            t <= j < names.len() ==> contains(
                restore(shielded, names.take(t)),
                marker(#[trigger] names[j]),
            ),
    decreases t,
{
    if t == 0 {
        assert(names.take(0) =~= Seq::<Seq<char>>::empty());
    } else {
        lemma_restore_phase(shielded, names, t - 1);
        assert(names.take(t).drop_last() =~= names.take(t - 1));
        assert(names.take(t).last() == names[t - 1]);
        let before = restore(shielded, names.take(t - 1));
        let a = names[t - 1];
        let now = restore(shielded, names.take(t));
        assert(now == replace_first(before, marker(a), token(a)));
        assert(contains(before, marker(a)));
        lemma_find_first(before, marker(a));
        lemma_replace_first_places(before, marker(a), token(a));
        let i = find_first(before, marker(a)).unwrap();
        assert forall|j: int| 0 <= j < t implies contains(now, token(#[trigger] names[j])) by {
            if j < t - 1 {
                let b = names[j];
                let at = choose|at: int| occurs_at(before, token(b), at);
                lemma_token_apart_from_marker(before, b, at, a, i);
                lemma_replace_keeps(before, marker(a), token(a), token(b), at);
            }
        }
        assert forall|j: int| t <= j < names.len() implies contains(
            now,
            marker(#[trigger] names[j]),
        ) by {
            let b = names[j];
            let at = choose|at: int| occurs_at(before, marker(b), at);
            lemma_markers_apart(before, a, i, b, at);
            lemma_replace_keeps(before, marker(a), token(a), marker(b), at);
        }
    }
}

/// A text that holds the token of every declared placeholder holds every
/// one of them again after the placeholders have been protected and
/// restored with nothing done to the text in between, provided that the
/// names differ from one another and hold no brace and no angle bracket.
pub proof fn law_round_trip_of_plain_names(text: Seq<char>, names: Seq<Seq<char>>)
    requires
        first_missing(text, names).is_none(),
        plain_and_distinct(names),
    ensures
        forall|j: int|
            0 <= j < names.len() ==> contains(protect(text, names), marker(#[trigger] names[j])),
        forall|j: int|
            0 <= j < names.len() ==> contains(
                restore(protect(text, names), names),
                token(#[trigger] names[j]),
            ),
{
    let n = names.len() as int;
    assert(names.take(n) =~= names);
    lemma_protect_phase(text, names, n);
    lemma_restore_phase(protect(text, names), names, n);
}

} // verus!
