//! Searching and rewriting text, on sequences of characters.

use vstd::prelude::*;

verus! {

/// `pat` stands in `s` at position `i`.
pub open spec fn occurs_at(s: Seq<char>, pat: Seq<char>, i: int) -> bool {
    0 <= i && i + pat.len() <= s.len() && s.subrange(i, i + pat.len()) == pat
}

/// `pat` stands somewhere in `s`.
pub open spec fn contains(s: Seq<char>, pat: Seq<char>) -> bool {
    exists|i: int| occurs_at(s, pat, i)
}

/// The first position at or after `from` where `pat` stands in `s`.
pub open spec fn find_from(s: Seq<char>, pat: Seq<char>, from: int) -> Option<int>
    decreases s.len() - from + 1,
{
    if from < 0 || from + pat.len() > s.len() {
        None
    } else if occurs_at(s, pat, from) {
        Some(from)
    } else {
        find_from(s, pat, from + 1)
    }
}

/// The first position where `pat` stands in `s`.
pub open spec fn find_first(s: Seq<char>, pat: Seq<char>) -> Option<int> {
    find_from(s, pat, 0)
}

/// `s` with the first occurrence of `pat` replaced by `to`; `s` itself where
/// `pat` does not occur.
pub open spec fn replace_first(s: Seq<char>, pat: Seq<char>, to: Seq<char>) -> Seq<char> {
    match find_first(s, pat) {
        Some(i) => s.subrange(0, i) + to + s.subrange(i + pat.len(), s.len() as int),
        None => s,
    }
}

/// `s` begins with `prefix`.
pub open spec fn starts_with(s: Seq<char>, prefix: Seq<char>) -> bool {
    occurs_at(s, prefix, 0)
}

/// `s` ends with `suffix`.
pub open spec fn ends_with(s: Seq<char>, suffix: Seq<char>) -> bool {
    occurs_at(s, suffix, s.len() - suffix.len())
}

/// `s` without every leading repetition of `prefix`.
pub open spec fn trim_start(s: Seq<char>, prefix: Seq<char>) -> Seq<char>
    decreases s.len(),
{
    if prefix.len() > 0 && starts_with(s, prefix) {
        trim_start(s.subrange(prefix.len() as int, s.len() as int), prefix)
    } else {
        s
    }
}

/// `s` without every trailing repetition of `suffix`.
pub open spec fn trim_end(s: Seq<char>, suffix: Seq<char>) -> Seq<char>
    decreases s.len(),
{
    if suffix.len() > 0 && ends_with(s, suffix) {
        trim_end(s.subrange(0, s.len() - suffix.len()), suffix)
    } else {
        s
    }
}

/// What `find_from` returns is the least position from `from` on where `pat`
/// stands, and it returns `None` exactly where there is none.
pub proof fn lemma_find_from(s: Seq<char>, pat: Seq<char>, from: int)
    requires
        0 <= from,
    ensures
        match find_from(s, pat, from) {
            Some(i) => from <= i && occurs_at(s, pat, i) && forall|j: int|
                from <= j < i ==> !occurs_at(s, pat, j),
            None => forall|j: int| from <= j ==> !occurs_at(s, pat, j),
        },
    decreases s.len() - from + 1,
{
    if from + pat.len() > s.len() {
    } else if occurs_at(s, pat, from) {
    } else {
        lemma_find_from(s, pat, from + 1);
    }
}

/// `find_first` finds `pat` exactly where `s` contains it, at its least position.
pub proof fn lemma_find_first(s: Seq<char>, pat: Seq<char>)
    ensures
        find_first(s, pat).is_some() == contains(s, pat),
        find_first(s, pat) matches Some(i) ==> occurs_at(s, pat, i) && forall|j: int|
            0 <= j < i ==> !occurs_at(s, pat, j),
{
    lemma_find_from(s, pat, 0);
    if find_first(s, pat).is_none() {
        assert forall|j: int| !occurs_at(s, pat, j) by {}
    }
}

/// After a replacement that found `pat`, `to` stands where `pat` first stood.
pub proof fn lemma_replace_first_places(s: Seq<char>, pat: Seq<char>, to: Seq<char>)
    requires
        contains(s, pat),
    ensures
        find_first(s, pat) matches Some(i) && occurs_at(replace_first(s, pat, to), to, i),
        contains(replace_first(s, pat, to), to),
{
    lemma_find_first(s, pat);
    let i = find_first(s, pat).unwrap();
    let r = replace_first(s, pat, to);
    assert(r.subrange(i, i + to.len()) =~= to);
    assert(occurs_at(r, to, i));
}

/// `String::push`: the character is appended.
#[verifier::external_body]
fn push_char(s: &mut String, c: char)
    ensures
        final(s)@ == old(s)@.push(c),
{
    s.push(c)
}

/// The characters of `s`, in order.
pub fn chars_of(s: &str) -> (v: Vec<char>)
    ensures
        v@ == s@,
{
    let mut v: Vec<char> = Vec::new();
    for c in it: s.chars()
        invariant
            v@ == it.seq().take(it.index()),
            it.seq() == s@,
    {
        v.push(c);
    }
    v
}

/// The string made of the characters of `v`, in order.
pub fn string_of(v: &Vec<char>) -> (s: String)
    ensures
        s@ == v@,
{
    let mut s = String::new();
    let mut i: usize = 0;
    while i < v.len()
        invariant
            i <= v.len(),
            s@ == v@.take(i as int),
        decreases v.len() - i,
    {
        push_char(&mut s, v[i]);
        assert(v@.take(i as int + 1) =~= v@.take(i as int).push(v@[i as int]));
        i += 1;
    }
    assert(v@.take(v.len() as int) =~= v@);
    s
}

/// The character of a decimal digit.
pub open spec fn digit_of(d: nat) -> char {
    if d == 0 {
        '0'
    } else if d == 1 {
        '1'
    } else if d == 2 {
        '2'
    } else if d == 3 {
        '3'
    } else if d == 4 {
        '4'
    } else if d == 5 {
        '5'
    } else if d == 6 {
        '6'
    } else if d == 7 {
        '7'
    } else if d == 8 {
        '8'
    } else {
        '9'
    }
}

/// The decimal digits of a number, without leading zeros.
pub open spec fn decimal_of(n: nat) -> Seq<char>
    decreases n,
{
    if n < 10 {
        seq![digit_of(n)]
    } else {
        decimal_of(n / 10).push(digit_of(n % 10))
    }
}

/// The character of a decimal digit.
fn digit(d: usize) -> (c: char)
    requires
        d < 10,
    ensures
        c == digit_of(d as nat),
{
    if d == 0 {
        '0'
    } else if d == 1 {
        '1'
    } else if d == 2 {
        '2'
    } else if d == 3 {
        '3'
    } else if d == 4 {
        '4'
    } else if d == 5 {
        '5'
    } else if d == 6 {
        '6'
    } else if d == 7 {
        '7'
    } else if d == 8 {
        '8'
    } else {
        '9'
    }
}

/// Appends the decimal digits of `n` to `out`.
fn push_decimal(out: &mut Vec<char>, n: usize)
    ensures
        final(out)@ == old(out)@ + decimal_of(n as nat),
    decreases n,
{
    if n >= 10 {
        push_decimal(out, n / 10);
    }
    out.push(digit(n % 10));
    proof {
        assert(final(out)@ =~= old(out)@ + decimal_of(n as nat));
    }
}

/// The decimal digits of a number, without leading zeros.
pub fn decimal(n: usize) -> (r: String)
    ensures
        r@ == decimal_of(n as nat),
{
    let mut out: Vec<char> = Vec::new();
    push_decimal(&mut out, n);
    proof {
        assert(out@ =~= decimal_of(n as nat));
    }
    string_of(&out)
}

/// Whether two texts are the same.
pub fn same_text(a: &str, b: &str) -> (r: bool)
    ensures
        r == (a@ == b@),
{
    a.to_owned() == b.to_owned()
}

/// Whether `pat` stands in `hay` at position `at`.
pub fn matches_at(hay: &Vec<char>, pat: &Vec<char>, at: usize) -> (r: bool)
    ensures
        r == occurs_at(hay@, pat@, at as int),
{
    if pat.len() > hay.len() || at > hay.len() - pat.len() {
        return false;
    }
    let mut k: usize = 0;
    while k < pat.len()
        invariant
            k <= pat.len(),
            at + pat.len() <= hay.len(),
            forall|j: int| 0 <= j < k ==> hay@[at + j] == pat@[j],
        decreases pat.len() - k,
    {
        if hay[at + k] != pat[k] {
            proof {
                assert(hay@.subrange(at as int, at + pat.len())[k as int] == hay@[at + k]);
            }
            return false;
        }
        k += 1;
    }
    assert(hay@.subrange(at as int, at + pat.len()) =~= pat@);
    true
}

/// The first position where `pat` stands in `hay`.
pub fn find(hay: &Vec<char>, pat: &Vec<char>) -> (r: Option<usize>)
    ensures
        r.is_some() == contains(hay@, pat@),
        match r {
            Some(i) => find_first(hay@, pat@) == Some(i as int),
            None => find_first(hay@, pat@).is_none(),
        },
{
    proof {
        lemma_find_first(hay@, pat@);
    }
    if pat.len() > hay.len() {
        return None;
    }
    let last: usize = hay.len() - pat.len();
    let mut i: usize = 0;
    loop
        invariant
            i <= last,
            last == hay.len() - pat.len(),
            find_first(hay@, pat@) == find_from(hay@, pat@, i as int),
        decreases last - i,
    {
        if matches_at(hay, pat, i) {
            proof {
                lemma_find_first(hay@, pat@);
            }
            return Some(i);
        }
        if i == last {
            proof {
                assert(find_from(hay@, pat@, i as int + 1).is_none());
                lemma_find_first(hay@, pat@);
            }
            return None;
        }
        i += 1;
    }
}

/// Whether `hay` contains `pat`.
pub fn includes(hay: &Vec<char>, pat: &Vec<char>) -> (r: bool)
    ensures
        r == contains(hay@, pat@),
{
    find(hay, pat).is_some()
}

/// `hay` without every leading repetition of `prefix`.
pub fn trimmed_start(hay: &Vec<char>, prefix: &Vec<char>) -> (r: Vec<char>)
    ensures
        r@ == trim_start(hay@, prefix@),
{
    let mut from: usize = 0;
    if prefix.len() > 0 {
        proof {
            assert(hay@.subrange(0, hay.len() as int) =~= hay@);
        }
        while matches_at(hay, prefix, from)
            invariant
                from <= hay.len(),
                prefix.len() > 0,
                trim_start(hay@, prefix@) == trim_start(
                    hay@.subrange(from as int, hay.len() as int),
                    prefix@,
                ),
            decreases hay.len() - from,
        {
            proof {
                let rest = hay@.subrange(from as int, hay.len() as int);
                assert(rest.subrange(0, prefix.len() as int) =~= hay@.subrange(
                    from as int,
                    from + prefix.len(),
                ));
                assert(rest.subrange(prefix.len() as int, rest.len() as int) =~= hay@.subrange(
                    from + prefix.len(),
                    hay.len() as int,
                ));
            }
            from += prefix.len();
        }
        proof {
            let rest = hay@.subrange(from as int, hay.len() as int);
            if from + prefix.len() <= hay.len() {
                assert(rest.subrange(0, prefix.len() as int) =~= hay@.subrange(
                    from as int,
                    from + prefix.len(),
                ));
            }
        }
    } else {
        proof {
            assert(hay@.subrange(0, hay.len() as int) =~= hay@);
        }
    }
    let mut r: Vec<char> = Vec::new();
    append_range(&mut r, hay, from, hay.len());
    r
}

/// `hay` without every trailing repetition of `suffix`.
pub fn trimmed_end(hay: &Vec<char>, suffix: &Vec<char>) -> (r: Vec<char>)
    ensures
        r@ == trim_end(hay@, suffix@),
{
    let mut to: usize = hay.len();
    proof {
        assert(hay@.subrange(0, hay.len() as int) =~= hay@);
    }
    if suffix.len() > 0 {
        while to >= suffix.len() && matches_at(hay, suffix, to - suffix.len())
            invariant
                to <= hay.len(),
                suffix.len() > 0,
                trim_end(hay@, suffix@) == trim_end(hay@.subrange(0, to as int), suffix@),
            decreases to,
        {
            proof {
                let rest = hay@.subrange(0, to as int);
                assert(rest.subrange(rest.len() - suffix.len(), rest.len() as int) =~= hay@.subrange(
                    to - suffix.len(),
                    to as int,
                ));
                assert(rest.subrange(0, rest.len() - suffix.len()) =~= hay@.subrange(
                    0,
                    to - suffix.len(),
                ));
            }
            to -= suffix.len();
        }
        proof {
            let rest = hay@.subrange(0, to as int);
            if to >= suffix.len() {
                assert(rest.subrange(rest.len() - suffix.len(), rest.len() as int) =~= hay@.subrange(
                    to - suffix.len(),
                    to as int,
                ));
            }
        }
    }
    let mut r: Vec<char> = Vec::new();
    append_range(&mut r, hay, 0, to);
    r
}

/// `hay` with the first occurrence of `pat` replaced by `to`.
pub fn replaced_first(hay: &Vec<char>, pat: &Vec<char>, to: &Vec<char>) -> (r: Vec<char>)
    ensures
        r@ == replace_first(hay@, pat@, to@),
{
    let mut out: Vec<char> = Vec::new();
    match find(hay, pat) {
        Some(i) => {
            proof {
                lemma_find_first(hay@, pat@);
                assert(occurs_at(hay@, pat@, i as int));
                assert(i + pat.len() <= hay.len());
            }
            let rest: usize = i + pat.len();
            append_range(&mut out, hay, 0, i);
            append_range(&mut out, to, 0, to.len());
            append_range(&mut out, hay, rest, hay.len());
            assert(to@.subrange(0, to.len() as int) =~= to@);
        },
        None => {
            append_range(&mut out, hay, 0, hay.len());
            assert(out@ =~= hay@);
        },
    }
    out
}

/// Appends `src[from..to]` to `out`.
pub fn append_range(out: &mut Vec<char>, src: &Vec<char>, from: usize, to: usize)
    requires
        from <= to <= src.len(),
    ensures
        final(out)@ == old(out)@ + src@.subrange(from as int, to as int),
{
    let mut i: usize = from;
    while i < to
        invariant
            from <= i <= to <= src.len(),
            out@ == old(out)@ + src@.subrange(from as int, i as int),
        decreases to - i,
    {
        out.push(src[i]);
        assert(src@.subrange(from as int, i as int + 1) =~= src@.subrange(
            from as int,
            i as int,
        ).push(src@[i as int]));
        assert(out@ =~= old(out)@ + src@.subrange(from as int, i as int + 1));
        i += 1;
    }
}

} // verus!
