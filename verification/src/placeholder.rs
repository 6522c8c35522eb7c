//! Placeholders: the substitution tokens of a string, and how they are
//! shielded from the backend and brought back.

use crate::error::Error;
use crate::text::{
    append_range, chars_of, contains, includes, replace_first, replaced_first, string_of,
};
use vstd::prelude::*;

verus! {

/// The substitution token that stands for `name` in a string: `{name}`.
pub open spec fn token(name: Seq<char>) -> Seq<char> {
    seq!['{'] + name + seq!['}']
}

/// The inert inline marker that shields `name` from translation: `<ph>name</ph>`.
pub open spec fn marker(name: Seq<char>) -> Seq<char> {
    seq!['<', 'p', 'h', '>'] + name + seq!['<', '/', 'p', 'h', '>']
}

/// `text` with, for each name in turn, the first remaining token replaced by
/// the name's marker.
pub open spec fn protect(text: Seq<char>, names: Seq<Seq<char>>) -> Seq<char>
    decreases names.len(),
{
    if names.len() == 0 {
        text
    } else {
        replace_first(
            protect(text, names.drop_last()),
            token(names.last()),
            marker(names.last()),
        )
    }
}

/// `text` with, for each name in turn, the first remaining marker replaced by
/// the name's token.
pub open spec fn restore(text: Seq<char>, names: Seq<Seq<char>>) -> Seq<char>
    decreases names.len(),
{
    if names.len() == 0 {
        text
    } else {
        replace_first(
            restore(text, names.drop_last()),
            marker(names.last()),
            token(names.last()),
        )
    }
}

/// The position of the first name whose token `text` lacks, if there is one.
pub open spec fn first_missing(text: Seq<char>, names: Seq<Seq<char>>) -> Option<int>
    decreases names.len(),
{
    if names.len() == 0 {
        None
    } else {
        match first_missing(text, names.drop_last()) {
            Some(j) => Some(j),
            None => if contains(text, token(names.last())) {
                None
            } else {
                Some(names.len() - 1)
            },
        }
    }
}

/// `first_missing` names the least position whose token is absent, and is
/// `None` exactly when every token is present.
pub proof fn lemma_first_missing(text: Seq<char>, names: Seq<Seq<char>>)
    ensures
        match first_missing(text, names) {
            Some(j) => 0 <= j < names.len() && !contains(text, token(names[j])) && forall|k: int|
                0 <= k < j ==> contains(text, token(#[trigger] names[k])),
            None => forall|k: int|
                0 <= k < names.len() ==> contains(text, token(#[trigger] names[k])),
        },
    decreases names.len(),
{
    if names.len() > 0 {
        lemma_first_missing(text, names.drop_last());
        assert(forall|k: int| 0 <= k < names.len() - 1 ==> names.drop_last()[k] == names[k]);
    }
}

/// The characters of the token of `name`.
pub fn token_chars(name: &str) -> (r: Vec<char>)
    ensures
        r@ == token(name@),
{
    let body = chars_of(name);
    let mut r: Vec<char> = Vec::new();
    r.push('{');
    append_range(&mut r, &body, 0, body.len());
    r.push('}');
    proof {
        assert(body@.subrange(0, body.len() as int) =~= body@);
        assert(r@ =~= token(name@));
    }
    r
}

/// The characters of the marker of `name`.
pub fn marker_chars(name: &str) -> (r: Vec<char>)
    ensures
        r@ == marker(name@),
{
    let body = chars_of(name);
    let mut r: Vec<char> = Vec::new();
    r.push('<');
    r.push('p');
    r.push('h');
    r.push('>');
    append_range(&mut r, &body, 0, body.len());
    r.push('<');
    r.push('/');
    r.push('p');
    r.push('h');
    r.push('>');
    proof {
        assert(body@.subrange(0, body.len() as int) =~= body@);
        assert(r@ =~= marker(name@));
    }
    r
}

/// Collection of placeholder names.
#[derive(Debug)]
pub struct Placeholders<'a>(pub(crate) Vec<&'a str>);

impl<'a> View for Placeholders<'a> {
    type V = Seq<Seq<char>>;

    closed spec fn view(&self) -> Seq<Seq<char>> {
        self.0@.map_values(|s: &str| s@)
    }
}

impl<'a> Placeholders<'a> {
    /// Create new placeholders.
    pub fn new(names: Vec<&'a str>) -> (r: Self)
        ensures
            r@ == names@.map_values(|s: &str| s@),
    {
        Self(names)
    }

    /// The placeholders with the names of `names`.
    pub fn from_names(names: &'a Vec<String>) -> (r: Self)
        ensures
            r@ == names@.map_values(|s: String| s@),
    {
        let mut v: Vec<&'a str> = Vec::new();
        let mut i: usize = 0;
        while i < names.len()
            invariant
                i <= names.len(),
                v.len() == i,
                forall|j: int| 0 <= j < i ==> v@[j]@ == names@[j]@,
            decreases names.len() - i,
        {
            v.push(names[i].as_str());
            i += 1;
        }
        let r = Self(v);
        proof {
            assert(r@ =~= names@.map_values(|s: String| s@));
        }
        r
    }

    /// The names, owned.
    pub fn to_owned_names(&self) -> (r: Vec<String>)
        ensures
            r@.map_values(|s: String| s@) == self@,
    {
        let mut r: Vec<String> = Vec::new();
        let mut i: usize = 0;
        while i < self.0.len()
            invariant
                i <= self.0.len(),
                r.len() == i,
                forall|j: int| 0 <= j < i ==> r@[j]@ == self.0@[j]@,
            decreases self.0.len() - i,
        {
            r.push(self.0[i].to_owned());
            i += 1;
        }
        proof {
            assert(r@.map_values(|s: String| s@) =~= self@);
        }
        r
    }

    /// Slice of placeholder names.
    pub fn names(&self) -> (r: &[&'a str])
        ensures
            r@.map_values(|s: &str| s@) == self@,
    {
        self.0.as_slice()
    }

    /// Convert to a vector of string slices.
    pub fn to_vec(&self) -> (r: Vec<&'a str>)
        ensures
            r@.map_values(|s: &str| s@) == self@,
    {
        let mut r: Vec<&'a str> = Vec::new();
        let mut i: usize = 0;
        while i < self.0.len()
            invariant
                i <= self.0.len(),
                r@ == self.0@.take(i as int),
            decreases self.0.len() - i,
        {
            r.push(self.0[i]);
            assert(self.0@.take(i as int + 1) =~= self.0@.take(i as int).push(self.0@[i as int]));
            i += 1;
        }
        assert(self.0@.take(self.0.len() as int) =~= self.0@);
        r
    }

    /// Verify that a source string contains all the referenced
    /// placeholders.
    pub fn verify(&self, source: &str) -> (r: Result<(), Error>)
        ensures
            r.is_ok() == first_missing(source@, self@).is_none(),
            r matches Err(e) ==> e matches Error::PlaceholderNotDefined(name, text) && name@
                == self@[first_missing(source@, self@).unwrap()] && text@ == source@,
    {
        let hay = chars_of(source);
        let mut i: usize = 0;
        while i < self.0.len()
            invariant
                i <= self.0.len(),
                hay@ == source@,
                first_missing(source@, self@.take(i as int)).is_none(),
            decreases self.0.len() - i,
        {
            let needle = token_chars(self.0[i]);
            proof {
                assert(self@.take(i as int + 1).drop_last() =~= self@.take(i as int));
                assert(self@.take(i as int + 1).last() == self.0@[i as int]@);
            }
            if !includes(&hay, &needle) {
                proof {
                    lemma_first_missing(source@, self@);
                    lemma_first_missing(source@, self@.take(i as int));
                    assert(forall|k: int| 0 <= k < i ==> self@.take(i as int)[k] == self@[k]);
                    assert(self@[i as int] == self.0@[i as int]@);
                }
                return Err(Error::PlaceholderNotDefined(self.0[i].to_owned(), source.to_owned()));
            }
            i += 1;
        }
        proof {
            assert(self@.take(self.0.len() as int) =~= self@);
        }
        Ok(())
    }

    /// Shield the placeholders of `text` from translation: for each name in
    /// turn, the first remaining `{name}` becomes `<ph>name</ph>`.
    pub fn protect(&self, text: &str) -> (r: String)
        ensures
            r@ == protect(text@, self@),
    {
        let mut cur = chars_of(text);
        let mut i: usize = 0;
        while i < self.0.len()
            invariant
                i <= self.0.len(),
                cur@ == protect(text@, self@.take(i as int)),
            decreases self.0.len() - i,
        {
            let needle = token_chars(self.0[i]);
            let shield = marker_chars(self.0[i]);
            proof {
                assert(self@.take(i as int + 1).drop_last() =~= self@.take(i as int));
                assert(self@.take(i as int + 1).last() == self.0@[i as int]@);
            }
            cur = replaced_first(&cur, &needle, &shield);
            i += 1;
        }
        proof {
            assert(self@.take(self.0.len() as int) =~= self@);
        }
        string_of(&cur)
    }

    /// Bring the placeholders of a translated `text` back: for each name in
    /// turn, the first remaining `<ph>name</ph>` becomes `{name}`.
    pub fn restore(&self, text: &str) -> (r: String)
        ensures
            r@ == restore(text@, self@),
    {
        let mut cur = chars_of(text);
        let mut i: usize = 0;
        while i < self.0.len()
            invariant
                i <= self.0.len(),
                cur@ == restore(text@, self@.take(i as int)),
            decreases self.0.len() - i,
        {
            let needle = marker_chars(self.0[i]);
            let plain = token_chars(self.0[i]);
            proof {
                assert(self@.take(i as int + 1).drop_last() =~= self@.take(i as int));
                assert(self@.take(i as int + 1).last() == self.0@[i as int]@);
            }
            cur = replaced_first(&cur, &needle, &plain);
            i += 1;
        }
        proof {
            assert(self@.take(self.0.len() as int) =~= self@);
        }
        string_of(&cur)
    }
}

} // verus!
