//! A JSON document as plain data, with its mathematical model.

use vstd::prelude::*;

verus! {

/// The mathematical model of a JSON value.
pub enum JsonModel {
    Null,
    Bool(bool),
    Number(Seq<char>),
    Text(Seq<char>),
    Array(Seq<JsonModel>),
    Object(Seq<MemberModel>),
}

/// The mathematical model of one member of a JSON object.
pub struct MemberModel {
    pub name: Seq<char>,
    pub value: JsonModel,
}

/// A JSON value. A number is held as its literal text; the members of an
/// object are held in document order.
#[derive(Debug, PartialEq, Eq)]
pub enum Value {
    Null,
    Bool(bool),
    Number(String),
    String(String),
    Array(Vec<Value>),
    Object(Vec<Member>),
}

/// One member of a JSON object: a name and the value under it.
#[derive(Debug, PartialEq, Eq)]
pub struct Member {
    pub name: String,
    pub value: Value,
}

impl View for Value {
    type V = JsonModel;

    open spec fn view(&self) -> JsonModel
        decreases self,
    {
        match self {
            Value::Null => JsonModel::Null,
            Value::Bool(b) => JsonModel::Bool(*b),
            Value::Number(n) => JsonModel::Number(n@),
            Value::String(s) => JsonModel::Text(s@),
            Value::Array(items) => JsonModel::Array(
                Seq::new(items@.len(), |i: int| if 0 <= i < items@.len() { items@[i]@ } else { JsonModel::Null }),
            ),
            Value::Object(members) => JsonModel::Object(
                Seq::new(
                    members@.len(),
                    |i: int|
                        if 0 <= i < members@.len() {
                            MemberModel { name: members@[i].name@, value: members@[i].value@ }
                        } else {
                            MemberModel { name: Seq::empty(), value: JsonModel::Null }
                        },
                ),
            ),
        }
    }
}



impl Value {
    /// The text of a string value, if this is one.
    pub fn as_str(&self) -> (r: Option<&str>)
        ensures
            r.is_some() == (self@ is Text),
            r matches Some(s) ==> s@ == self@->Text_0,
    {
        match self {
            Value::String(s) => Some(s.as_str()),
            _ => None,
        }
    }

    /// Whether this value is a string.
    pub fn is_string(&self) -> (r: bool)
        ensures
            r == (self@ is Text),
    {
        match self {
            Value::String(_) => true,
            _ => false,
        }
    }

    /// Structural equality: two values are the same when their models are.
    pub fn same(&self, other: &Value) -> (r: bool)
        ensures
            r == (self@ == other@),
        decreases self, 0nat,
    {
        match self {
            Value::Null => {
                let r = match other {
                    Value::Null => true,
                    _ => false,
                };
                r
            },
            Value::Bool(a) => {
                let r = match other {
                    Value::Bool(b) => *a == *b,
                    _ => false,
                };
                r
            },
            Value::Number(a) => {
                let r = match other {
                    Value::Number(b) => *a == *b,
                    _ => false,
                };
                r
            },
            Value::String(a) => {
                let r = match other {
                    Value::String(b) => *a == *b,
                    _ => false,
                };
                r
            },
            Value::Array(a) => match other {
                Value::Array(b) => {
                    let r = a.len() == b.len() && same_items(a, b, 0);
                    proof {
                        if r {
                            assert(self@->Array_0 =~= other@->Array_0);
                        } else if a.len() == b.len() {
                            let j = choose|j: int| 0 <= j < a.len() && a@[j]@ != b@[j]@;
                            assert(self@->Array_0[j] != other@->Array_0[j]);
                        } else {
                            assert(self@->Array_0.len() != other@->Array_0.len());
                        }
                    }
                    r
                },
                _ => false,
            },
            Value::Object(a) => match other {
                Value::Object(b) => {
                    let r = a.len() == b.len() && same_members(a, b, 0);
                    proof {
                        if r {
                            assert(self@->Object_0 =~= other@->Object_0);
                        } else if a.len() == b.len() {
                            let j = choose|j: int|
                                0 <= j < a.len() && !(a@[j].name@ == b@[j].name@ && a@[j].value@
                                    == b@[j].value@);
                            assert(self@->Object_0[j] != other@->Object_0[j]);
                        } else {
                            assert(self@->Object_0.len() != other@->Object_0.len());
                        }
                    }
                    r
                },
                _ => false,
            },
        }
    }

    /// A deep copy with the same model.
    pub fn duplicate(&self) -> (r: Value)
        ensures
            r@ == self@,
        decreases self, 0nat,
    {
        match self {
            Value::Null => Value::Null,
            Value::Bool(b) => Value::Bool(*b),
            Value::Number(n) => Value::Number(n.clone()),
            Value::String(s) => Value::String(s.clone()),
            Value::Array(items) => {
                let mut out: Vec<Value> = Vec::new();
                copy_items(items, 0, &mut out);
                let r = Value::Array(out);
                proof {
                    assert(r@->Array_0 =~= self@->Array_0);
                }
                r
            },
            Value::Object(members) => {
                let mut out: Vec<Member> = Vec::new();
                copy_members(members, 0, &mut out);
                let r = Value::Object(out);
                proof {
                    assert(r@->Object_0 =~= self@->Object_0);
                }
                r
            },
        }
    }
}

/// Whether two lists of equal length agree, model by model, from `from` on.
fn same_items(a: &Vec<Value>, b: &Vec<Value>, from: usize) -> (r: bool)
    requires
        a.len() == b.len(),
        from <= a.len(),
    ensures
        r == (forall|j: int| from <= j < a.len() ==> a@[j]@ == b@[j]@),
    decreases a, a.len() - from,
{
    if from == a.len() {
        true
    } else if a[from].same(&b[from]) {
        same_items(a, b, from + 1)
    } else {
        false
    }
}

/// Whether two member lists of equal length agree, name and model, from `from` on.
fn same_members(a: &Vec<Member>, b: &Vec<Member>, from: usize) -> (r: bool)
    requires
        a.len() == b.len(),
        from <= a.len(),
    ensures
        r == (forall|j: int|
            from <= j < a.len() ==> a@[j].name@ == b@[j].name@ && a@[j].value@ == b@[j].value@),
    decreases a, a.len() - from,
{
    if from == a.len() {
        true
    } else if a[from].name == b[from].name && a[from].value.same(&b[from].value) {
        same_members(a, b, from + 1)
    } else {
        false
    }
}

/// Appends deep copies of `items[from..]` to `out`.
fn copy_items(items: &Vec<Value>, from: usize, out: &mut Vec<Value>)
    requires
        from <= items.len(),
        old(out).len() == from,
    ensures
        final(out).len() == items.len(),
        forall|j: int| 0 <= j < from ==> final(out)@[j] == old(out)@[j],
        forall|j: int| from <= j < items.len() ==> final(out)@[j]@ == items@[j]@,
    decreases items, items.len() - from,
{
    if from < items.len() {
        out.push(items[from].duplicate());
        copy_items(items, from + 1, out);
    }
}

/// Appends deep copies of `members[from..]` to `out`.
fn copy_members(members: &Vec<Member>, from: usize, out: &mut Vec<Member>)
    requires
        from <= members.len(),
        old(out).len() == from,
    ensures
        final(out).len() == members.len(),
        forall|j: int| 0 <= j < from ==> final(out)@[j] == old(out)@[j],
        forall|j: int|
            from <= j < members.len() ==> final(out)@[j].name@ == members@[j].name@
                && final(out)@[j].value@ == members@[j].value@,
    decreases members, members.len() - from,
{
    if from < members.len() {
        out.push(Member { name: members[from].name.clone(), value: members[from].value.duplicate() });
        copy_members(members, from + 1, out);
    }
}

} // verus!
