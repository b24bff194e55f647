//! Writing KeyValues text.
//!
//! A string value is written as `"key" "value"` on a line of its own; a
//! block as its key on one line, `{` on the next, its entries one level
//! deeper, and `}`. Each level is indented by one tab. A key written several
//! times comes out once per value, and the values of the document's root
//! block come out without a surrounding block.

use vstd::prelude::*;
use crate::text::push_char;
use super::error::Error;
use super::grammar::{KvMap, sat};
use super::value::{Entry, KvTree, Value, entries_tree, values_tree, lemma_entries_tree, lemma_values_tree};

verus! {

broadcast use {lemma_entries_tree, lemma_values_tree};

/// `n` tabs.
pub open spec fn tabs(n: nat) -> Seq<char> {
    Seq::new(n, |i: int| '\t')
}

/// `s` between double quotes.
pub open spec fn quoted(s: Seq<char>) -> Seq<char> {
    seq!['"'] + s + seq!['"']
}

/// The text of one value written under `key` at indentation `indent`.
pub open spec fn value_text(v: KvTree, key: Seq<char>, indent: nat) -> Seq<char>
    decreases v, 0nat,
{
    match v {
        KvTree::Str(s) => tabs(indent) + quoted(key) + seq![' '] + quoted(s) + seq!['\n'],
        KvTree::Obj(m) => tabs(indent) + key + seq!['\n'] + tabs(indent) + seq!['{', '\n'] + entries_text(
            m,
            sat(indent + 1int) as nat,
        ) + tabs(indent) + seq!['}', '\n'],
    }
}

/// The text of the values written under `key`, in order.
pub open spec fn values_text(vs: Seq<KvTree>, key: Seq<char>, indent: nat) -> Seq<char>
    decreases vs, 1nat,
{
    if vs.len() == 0 {
        Seq::empty()
    } else {
        values_text(vs.drop_last(), key, indent) + value_text(vs.last(), key, indent)
    }
}

/// The text of the entries of a block, in order.
pub open spec fn entries_text(m: KvMap, indent: nat) -> Seq<char>
    decreases m, 1nat,
{
    if m.len() == 0 {
        Seq::empty()
    } else {
        entries_text(m.drop_last(), indent) + values_text(m.last().1, m.last().0, indent)
    }
}

/// The text of a whole document.
pub open spec fn kv_text(v: KvTree) -> Seq<char> {
    match v {
        KvTree::Str(s) => quoted(s) + seq!['\n'],
        KvTree::Obj(m) => entries_text(m, 0),
    }
}

/// A writer of KeyValues text into a `String`.
pub struct Serializer {
    writer: String,
    last_key: Option<String>,
    indent: usize,
    is_root: bool,
}

fn push_quoted(out: &mut String, s: &str)
    ensures
        final(out)@ == old(out)@ + quoted(s@),
{
    push_char(out, '"');
    out.append(s);
    push_char(out, '"');
}

impl Serializer {
    /// The text written so far.
    pub closed spec fn output(&self) -> Seq<char> {
        self.writer@
    }

    /// Nothing has been written through this writer yet.
    pub closed spec fn fresh(&self) -> bool {
        self.is_root && self.last_key is None && self.indent == 0
    }

    /// A writer that appends to `writer`.
    pub fn new(writer: String) -> (s: Self)
        ensures
            s.output() == writer@,
            s.fresh(),
    {
        Serializer { writer, last_key: None, indent: 0, is_root: true }
    }

    /// The text written.
    pub fn into_string(self) -> (s: String)
        ensures
            s@ == self.output(),
    {
        self.writer
    }

    fn write_indent(&mut self)
        ensures
            final(self).writer@ == old(self).writer@ + tabs(old(self).indent as nat),
            final(self).indent == old(self).indent,
            final(self).last_key == old(self).last_key,
            final(self).is_root == old(self).is_root,
    {
        let mut i: usize = 0;
        while i < self.indent
            invariant
                i <= self.indent,
                self.indent == old(self).indent,
                self.last_key == old(self).last_key,
                self.is_root == old(self).is_root,
                self.writer@ == old(self).writer@ + tabs(i as nat),
            decreases self.indent - i,
        {
            push_char(&mut self.writer, '\t');
            assert(tabs(i as nat).push('\t') =~= tabs((i + 1) as nat));
            i = i + 1;
        }
    }

    fn write_key(&mut self)
        ensures
            final(self).writer@ == old(self).writer@ + match old(self).last_key {
                Some(k) => tabs(old(self).indent as nat) + quoted(k@) + seq![' '],
                None => Seq::empty(),
            },
            final(self).indent == old(self).indent,
            final(self).last_key == old(self).last_key,
            final(self).is_root == old(self).is_root,
    {
        match &self.last_key {
            Some(k) => {
                let key = k.clone();
                self.write_indent();
                push_quoted(&mut self.writer, key.as_str());
                push_char(&mut self.writer, ' ');
            },
            None => {
                assert(self.writer@ =~= self.writer@ + Seq::<char>::empty());
            },
        }
    }

    /// Writes one value under the key held in `last_key`.
    fn write_value(&mut self, v: &Value)
        requires
            !old(self).is_root,
            old(self).last_key is Some,
        ensures
            final(self).writer@ == old(self).writer@ + value_text(v@, old(self).last_key->0@, old(self).indent as nat),
            final(self).indent == old(self).indent,
            final(self).last_key is None,
            !final(self).is_root,
        decreases v, 0nat,
    {
        match v {
            Value::Str(s) => {
                self.write_key();
                push_quoted(&mut self.writer, s.as_str());
                push_char(&mut self.writer, '\n');
                self.last_key = None;
            },
            Value::Obj(es) => {
                let key = match &self.last_key {
                    Some(k) => k.clone(),
                    None => String::new(),
                };
                self.write_indent();
                self.writer.append(key.as_str());
                push_char(&mut self.writer, '\n');
                self.write_indent();
                push_char(&mut self.writer, '{');
                push_char(&mut self.writer, '\n');
                let saved = self.indent;
                self.indent = if self.indent == usize::MAX {
                    usize::MAX
                } else {
                    self.indent + 1
                };
                self.last_key = None;
                self.write_entries(es);
                self.indent = saved;
                self.write_indent();
                push_char(&mut self.writer, '}');
                push_char(&mut self.writer, '\n');
            },
        }
    }

    /// Writes the entries of a block.
    fn write_entries(&mut self, es: &Vec<Entry>)
        requires
            !old(self).is_root,
        ensures
            final(self).writer@ == old(self).writer@ + entries_text(entries_tree(es@), old(self).indent as nat),
            final(self).indent == old(self).indent,
            final(self).last_key == old(self).last_key || final(self).last_key is None,
            !final(self).is_root,
        decreases es@, 1nat,
    {
        let ghost w0 = self.writer@;
        let ghost ind = self.indent as nat;
        let mut i: usize = 0;
        assert(entries_tree(es@.take(0)) =~= Seq::empty());
        while i < es.len()
            invariant
                i <= es@.len(),
                !self.is_root,
                self.indent == old(self).indent,
                ind == self.indent as nat,
                self.writer@ == w0 + entries_text(entries_tree(es@.take(i as int)), ind),
                self.last_key == old(self).last_key || self.last_key is None,
            decreases es.len() - i,
        {
            let ghost before = self.writer@;
            let vs = &es[i].values;
            let mut j: usize = 0;
            assert(values_tree(vs@.take(0)) =~= Seq::empty());
            while j < vs.len()
                invariant
                    j <= vs@.len(),
                    vs == &es@[i as int].values,
                    !self.is_root,
                    self.indent == old(self).indent,
                    ind == self.indent as nat,
                    self.writer@ == before + values_text(values_tree(vs@.take(j as int)), es@[i as int].key@, ind),
                    self.last_key == old(self).last_key || self.last_key is None,
                    i < es@.len(),
                decreases vs.len() - j,
            {
                proof {
                    assert(decreases_to!(es@ => es@[i as int]));
                    assert(decreases_to!(es@[i as int] => es@[i as int].values));
                    assert(decreases_to!(es@[i as int].values => es@[i as int].values@));
                    assert(decreases_to!(es@[i as int].values@ => es@[i as int].values@[j as int]));
                }
                self.last_key = Some(es[i].key.clone());
                self.write_value(&vs[j]);
                assert(values_tree(vs@.take(j + 1)).drop_last() =~= values_tree(vs@.take(j as int)));
                j = j + 1;
            }
            assert(vs@.take(vs@.len() as int) =~= vs@);
            assert(entries_tree(es@.take(i + 1)).drop_last() =~= entries_tree(es@.take(i as int)));
            i = i + 1;
        }
        assert(es@.take(es@.len() as int) =~= es@);
    }

    /// Writes `v` as a whole document.
    pub fn serialize(&mut self, v: &Value)
        requires
            old(self).fresh(),
        ensures
            final(self).output() == old(self).output() + kv_text(v@),
    {
        match v {
            Value::Str(s) => {
                push_quoted(&mut self.writer, s.as_str());
                push_char(&mut self.writer, '\n');
            },
            Value::Obj(es) => {
                self.is_root = false;
                self.write_entries(es);
            },
        }
    }
}

/// The KeyValues text of `value`.
pub fn to_string(value: &Value) -> (r: Result<String, Error>)
    ensures
        r matches Ok(s) && s@ == kv_text(value@),
{
    let mut ser = Serializer::new(String::new());
    ser.serialize(value);
    Ok(ser.into_string())
}

} // verus!
