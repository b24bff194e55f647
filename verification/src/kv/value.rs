//! The tree of a KeyValues document.

use vstd::prelude::*;
use crate::text::{eq_ic, eq_ignore_ascii_case, str_eq};

verus! {

/// An entry of a block: a key and the values written under it, in the order
/// in which they were written (KeyValues allows a key to repeat).
#[derive(Debug, PartialEq)]
pub struct Entry {
    pub key: String,
    pub values: Vec<Value>,
}

/// A KeyValues value: a string, or a block of entries in document order.
#[derive(Debug, PartialEq)]
pub enum Value {
    /// A simple string value.
    Str(String),
    /// A block; no two entries have the same key.
    Obj(Vec<Entry>),
}

/// The mathematical content of a [`Value`].
pub enum KvTree {
    Str(Seq<char>),
    Obj(Seq<(Seq<char>, Seq<KvTree>)>),
}

pub open spec fn tree_of(v: Value) -> KvTree
    decreases v, 0nat,
{
    match v {
        Value::Str(s) => KvTree::Str(s@),
        Value::Obj(es) => KvTree::Obj(entries_tree(es@)),
    }
}

pub open spec fn entries_tree(es: Seq<Entry>) -> Seq<(Seq<char>, Seq<KvTree>)>
    decreases es, es.len(),
{
    if es.len() == 0 {
        Seq::empty()
    } else {
        entries_tree(es.drop_last()).push((es.last().key@, values_tree(es.last().values@)))
    }
}

pub open spec fn values_tree(vs: Seq<Value>) -> Seq<KvTree>
    decreases vs, vs.len(),
{
    if vs.len() == 0 {
        Seq::empty()
    } else {
        values_tree(vs.drop_last()).push(tree_of(vs.last()))
    }
}

pub broadcast proof fn lemma_entries_tree(es: Seq<Entry>)
    ensures
        (#[trigger] entries_tree(es)).len() == es.len(),
        forall|i: int| 0 <= i < es.len() ==> entries_tree(es)[i] == (es[i].key@, values_tree(es[i].values@)),
    decreases es.len(),
{
    if es.len() > 0 {
        lemma_entries_tree(es.drop_last());
        assert forall|i: int| 0 <= i < es.len() - 1 implies entries_tree(es)[i] == (es[i].key@, values_tree(es[i].values@)) by {
            assert(es.drop_last()[i] == es[i]);
        }
    }
}

pub broadcast proof fn lemma_values_tree(vs: Seq<Value>)
    ensures
        (#[trigger] values_tree(vs)).len() == vs.len(),
        forall|i: int| 0 <= i < vs.len() ==> values_tree(vs)[i] == tree_of(vs[i]),
    decreases vs.len(),
{
    if vs.len() > 0 {
        lemma_values_tree(vs.drop_last());
        assert forall|i: int| 0 <= i < vs.len() - 1 implies values_tree(vs)[i] == tree_of(vs[i]) by {
            assert(vs.drop_last()[i] == vs[i]);
        }
    }
}

impl View for Value {
    type V = KvTree;

    open spec fn view(&self) -> KvTree {
        tree_of(*self)
    }
}

/// A copy of a list of values.
pub fn clone_values(vs: &Vec<Value>) -> (r: Vec<Value>)
    ensures
        values_tree(r@) == values_tree(vs@),
        r@.len() == vs@.len(),
    decreases vs@, 1nat,
{
    let mut r: Vec<Value> = Vec::new();
    let mut i: usize = 0;
    while i < vs.len()
        invariant
            i <= vs@.len(),
            r@.len() == i,
            values_tree(r@) == values_tree(vs@.take(i as int)),
        decreases vs.len() - i,
    {
        proof {
            assert(decreases_to!(vs@ => vs@[i as int]));
        }
        let v = clone_value(&vs[i]);
        let ghost r0 = r@;
        r.push(v);
        assert(r@.drop_last() =~= r0);
        assert(vs@.take(i + 1).drop_last() =~= vs@.take(i as int));
        i = i + 1;
    }
    assert(vs@.take(vs@.len() as int) =~= vs@);
    r
}

/// A copy of a value.
pub fn clone_value(v: &Value) -> (r: Value)
    ensures
        r@ == v@,
    decreases v, 0nat,
{
    match v {
        Value::Str(s) => Value::Str(s.clone()),
        Value::Obj(es) => Value::Obj(clone_entries(es)),
    }
}

/// A copy of a list of entries.
pub fn clone_entries(es: &Vec<Entry>) -> (r: Vec<Entry>)
    ensures
        entries_tree(r@) == entries_tree(es@),
        r@.len() == es@.len(),
        forall|i: int| 0 <= i < es@.len() ==> r@[i].key@ == es@[i].key@,
    decreases es@, 1nat,
{
    let mut r: Vec<Entry> = Vec::new();
    let mut i: usize = 0;
    while i < es.len()
        invariant
            i <= es@.len(),
            r@.len() == i,
            entries_tree(r@) == entries_tree(es@.take(i as int)),
            forall|j: int| 0 <= j < i ==> r@[j].key@ == es@[j].key@,
        decreases es.len() - i,
    {
        let vs = clone_values(&es[i].values);
        let e = Entry { key: es[i].key.clone(), values: vs };
        let ghost r0 = r@;
        r.push(e);
        assert(r@.drop_last() =~= r0);
        assert(es@.take(i + 1).drop_last() =~= es@.take(i as int));
        i = i + 1;
    }
    assert(es@.take(es@.len() as int) =~= es@);
    r
}

impl Clone for Value {
    fn clone(&self) -> (r: Value)
        ensures
            r@ == self@,
    {
        clone_value(self)
    }
}

/// Index of the first entry whose key is exactly `k`, or -1.
pub open spec fn exact_pos(es: Seq<Entry>, k: Seq<char>) -> int
    decreases es.len(),
{
    if es.len() == 0 {
        -1
    } else {
        let r = exact_pos(es.drop_last(), k);
        if r >= 0 {
            r
        } else if es.last().key@ == k {
            es.len() - 1
        } else {
            -1
        }
    }
}

/// Index of the first entry whose key equals `k` when ASCII case is ignored,
/// or -1.
pub open spec fn ic_pos(es: Seq<Entry>, k: Seq<char>) -> int
    decreases es.len(),
{
    if es.len() == 0 {
        -1
    } else {
        let r = ic_pos(es.drop_last(), k);
        if r >= 0 {
            r
        } else if eq_ic(es.last().key@, k) {
            es.len() - 1
        } else {
            -1
        }
    }
}

/// The entry that a lookup of `k` finds: one whose key is exactly `k`, else
/// the first whose key matches `k` without regard to ASCII case; -1 if none.
pub open spec fn lookup_pos(es: Seq<Entry>, k: Seq<char>) -> int {
    if exact_pos(es, k) >= 0 {
        exact_pos(es, k)
    } else {
        ic_pos(es, k)
    }
}

proof fn lemma_pos_step(es: Seq<Entry>, k: Seq<char>, i: int)
    requires
        0 <= i < es.len(),
    ensures
        exact_pos(es.take(i + 1), k) == if exact_pos(es.take(i), k) >= 0 {
            exact_pos(es.take(i), k)
        } else if es[i].key@ == k {
            i
        } else {
            -1
        },
        ic_pos(es.take(i + 1), k) == if ic_pos(es.take(i), k) >= 0 {
            ic_pos(es.take(i), k)
        } else if eq_ic(es[i].key@, k) {
            i
        } else {
            -1
        },
{
    assert(es.take(i + 1).drop_last() =~= es.take(i));
}

proof fn lemma_pos_range(es: Seq<Entry>, k: Seq<char>)
    ensures
        -1 <= exact_pos(es, k) < es.len(),
        -1 <= ic_pos(es, k) < es.len(),
    decreases es.len(),
{
    if es.len() > 0 {
        lemma_pos_range(es.drop_last(), k);
    }
}

/// Finds the entry for `key` as [`lookup_pos`] describes.
pub fn lookup(es: &Vec<Entry>, key: &str) -> (r: Option<usize>)
    ensures
        match r {
            Some(i) => i == lookup_pos(es@, key@) && i < es@.len(),
            None => lookup_pos(es@, key@) < 0,
        },
{
    let mut exact: Option<usize> = None;
    let mut loose: Option<usize> = None;
    let mut i: usize = 0;
    assert(es@.take(0) =~= Seq::<Entry>::empty());
    while i < es.len()
        invariant
            i <= es@.len(),
            match exact {
                Some(j) => j == exact_pos(es@.take(i as int), key@) && j < i,
                None => exact_pos(es@.take(i as int), key@) < 0,
            },
            match loose {
                Some(j) => j == ic_pos(es@.take(i as int), key@) && j < i,
                None => ic_pos(es@.take(i as int), key@) < 0,
            },
        decreases es.len() - i,
    {
        proof {
            lemma_pos_step(es@, key@, i as int);
        }
        if exact.is_none() && str_eq(es[i].key.as_str(), key) {
            exact = Some(i);
        }
        if loose.is_none() && eq_ignore_ascii_case(es[i].key.as_str(), key) {
            loose = Some(i);
        }
        i = i + 1;
    }
    assert(es@.take(es@.len() as int) =~= es@);
    proof {
        lemma_pos_range(es@, key@);
    }
    match exact {
        Some(j) => Some(j),
        None => loose,
    }
}

impl Value {
    /// Checks if the value is a string.
    pub fn is_str(&self) -> (r: bool)
        ensures
            r == (self is Str),
    {
        match self {
            Value::Str(_) => true,
            _ => false,
        }
    }

    /// Checks if the value is an object (block).
    pub fn is_obj(&self) -> (r: bool)
        ensures
            r == (self is Obj),
    {
        match self {
            Value::Obj(_) => true,
            _ => false,
        }
    }

    /// Returns the string value if this is a `Value::Str`.
    pub fn as_str(&self) -> (r: Option<&str>)
        ensures
            match self {
                Value::Str(s) => r matches Some(t) && t@ == s@,
                Value::Obj(_) => r is None,
            },
    {
        match self {
            Value::Str(s) => Some(s.as_str()),
            _ => None,
        }
    }

    /// Returns the entries if this is a `Value::Obj`.
    pub fn as_obj(&self) -> (r: Option<&Vec<Entry>>)
        ensures
            match self {
                Value::Obj(es) => r == Some(es),
                Value::Str(_) => r is None,
            },
    {
        match self {
            Value::Obj(es) => Some(es),
            _ => None,
        }
    }

    /// All values written under `key`, if the value is a block that has that
    /// key. The key is matched exactly if some entry has it as written,
    /// otherwise without regard to ASCII case, as the engine reads keys.
    pub fn get_all(&self, key: &str) -> (r: Option<&Vec<Value>>)
        ensures
            match self {
                Value::Obj(es) => if lookup_pos(es@, key@) >= 0 {
                    r == Some(&es@[lookup_pos(es@, key@)].values)
                } else {
                    r is None
                },
                Value::Str(_) => r is None,
            },
    {
        match self {
            Value::Obj(es) => match lookup(es, key) {
                Some(i) => Some(&es[i].values),
                None => None,
            },
            _ => None,
        }
    }

    /// The first value written under `key`, looked up as [`Value::get_all`] does.
    pub fn get(&self, key: &str) -> (r: Option<&Value>)
        ensures
            match self {
                Value::Obj(es) => if lookup_pos(es@, key@) >= 0 && es@[lookup_pos(es@, key@)].values@.len() > 0 {
                    r == Some(&es@[lookup_pos(es@, key@)].values@[0])
                } else {
                    r is None
                },
                Value::Str(_) => r is None,
            },
    {
        match self.get_all(key) {
            Some(vs) => if vs.len() > 0 {
                Some(&vs[0])
            } else {
                None
            },
            None => None,
        }
    }

    /// The first value under `key`, if it is a string.
    pub fn get_string(&self, key: &str) -> (r: Option<&str>)
        ensures
            match self {
                Value::Obj(es) => if lookup_pos(es@, key@) >= 0 && es@[lookup_pos(es@, key@)].values@.len() > 0 {
                    match es@[lookup_pos(es@, key@)].values@[0] {
                        Value::Str(s) => r matches Some(t) && t@ == s@,
                        Value::Obj(_) => r is None,
                    }
                } else {
                    r is None
                },
                Value::Str(_) => r is None,
            },
    {
        match self.get(key) {
            Some(v) => v.as_str(),
            None => None,
        }
    }
}

} // verus!
