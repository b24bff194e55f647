//! Reading KeyValues text.

use vstd::prelude::*;
use crate::text::{ascii_ws, chars_of, string_from_chars, width_utf8, is_ascii_ws, utf8_width};
use super::error::Error;
use super::grammar::{Fail, Pos, sat, kv_insert, lemma_key_pos, lemma_comment_end, lemma_scan_bare, lemma_skip_ws, skip_ws, msg_expected_string, msg_unexpected_close, msg_missing_close, parse_value, parse_entries, parse_document, parse_kv, KvMap, comment_end, parse_string, scan_quoted, scan_bare, start};
use super::value::{Entry, KvTree, Value, entries_tree, values_tree, lemma_entries_tree, lemma_values_tree, tree_of};

verus! {

broadcast use {lemma_entries_tree, lemma_values_tree};

/// `e` is the error that `f` describes.
pub open spec fn fail_is(e: Error, f: Fail) -> bool {
    match f {
        Fail::Eof => e is Eof,
        Fail::Syntax { line, col, msg } => e matches Error::Syntax { line: l, column: c, msg: m } && l == line
            && c == col && m@ == msg,
    }
}

/// `r` is what the reading step `spec` describes, with the strings mapped by `view`.
pub open spec fn matches_string(r: Result<String, Error>, spec: Result<(Seq<char>, Pos), (Fail, Pos)>) -> bool {
    match spec {
        Ok((t, _)) => r matches Ok(s) && s@ == t,
        Err((f, _)) => r matches Err(e) && fail_is(e, f),
    }
}

/// `r` is the value that the reading step `spec` describes.
pub open spec fn matches_value(r: Result<Value, Error>, spec: Result<(KvTree, Pos), (Fail, Pos)>) -> bool {
    match spec {
        Ok((t, _)) => r matches Ok(v) && v@ == t,
        Err((f, _)) => r matches Err(e) && fail_is(e, f),
    }
}

/// `r` holds the entries that the reading step `spec` describes.
pub open spec fn matches_entries(r: Result<Vec<Entry>, Error>, spec: Result<(KvMap, Pos), (Fail, Pos)>) -> bool {
    match spec {
        Ok((m, _)) => r matches Ok(es) && entries_tree(es@) == m,
        Err((f, _)) => r matches Err(e) && fail_is(e, f),
    }
}

/// The position at which a reading step stops.
pub open spec fn end_pos<T>(spec: Result<(T, Pos), (Fail, Pos)>) -> Pos {
    match spec {
        Ok((_, p)) => p,
        Err((_, p)) => p,
    }
}

/// A reader of KeyValues text.
pub struct Deserializer {
    input: Vec<char>,
    cursor: usize,
    line: usize,
    column: usize,
}

/// `x + k`, or `usize::MAX` where that is larger.
fn sat_add(x: usize, k: usize) -> (r: usize)
    ensures
        r == sat(x + k),
{
    if x > usize::MAX - k {
        usize::MAX
    } else {
        x + k
    }
}

/// Adds `value` under `key` as [`kv_insert`] describes.
pub fn insert_entry(map: &mut Vec<Entry>, key: String, value: Value)
    ensures
        entries_tree(final(map)@) == kv_insert(entries_tree(old(map)@), key@, value@),
{
    let ghost m0 = entries_tree(map@);
    let mut i: usize = 0;
    while i < map.len()
        invariant
            i <= map@.len(),
            map@ == old(map)@,
            m0 == entries_tree(map@),
            forall|j: int| 0 <= j < i ==> #[trigger] m0[j].0 != key@,
        decreases map.len() - i,
    {
        if map[i].key == key {
            proof {
                lemma_key_pos(m0, key@, i as int);
            }
            let mut e = map.remove(i);
            let ghost vs0 = e.values@;
            e.values.push(value);
            assert(values_tree(e.values@) =~= values_tree(vs0).push(value@)) by {
                assert(e.values@.drop_last() == vs0);
            }
            map.insert(i, e);
            assert(entries_tree(map@) =~= kv_insert(m0, key@, value@));
            return;
        }
        i = i + 1;
    }
    proof {
        lemma_key_pos(m0, key@, i as int);
    }
    let ghost map0 = map@;
    map.push(Entry { key, values: vec![value] });
    assert(values_tree(map@.last().values@) =~= seq![value@]);
    assert(entries_tree(map@) =~= kv_insert(m0, key@, value@));
}

impl Deserializer {
    #[verifier::type_invariant]
    closed spec fn inv(&self) -> bool {
        self.cursor <= self.input@.len()
    }

    /// The text being read.
    pub closed spec fn text(&self) -> Seq<char> {
        self.input@
    }

    /// Where reading continues.
    pub closed spec fn pos(&self) -> Pos {
        Pos { at: self.cursor as int, line: self.line as int, col: self.column as int }
    }

    /// A reader at the start of `input`.
    pub fn from_str(input: &str) -> (d: Self)
        ensures
            d.text() == input@,
            d.pos() == start(),
    {
        Deserializer { input: chars_of(input), cursor: 0, line: 1, column: 1 }
    }

    /// The next character, if any.
    fn peek_char(&self) -> (r: Option<char>)
        ensures
            r == if self.pos().at < self.text().len() {
                Some(self.text()[self.pos().at])
            } else {
                None::<char>
            },
    {
        proof {
            use_type_invariant(self);
        }
        if self.cursor < self.input.len() {
            Some(self.input[self.cursor])
        } else {
            None
        }
    }

    /// A syntax error at the current position.
    fn error(&self, msg: &str) -> (e: Error)
        ensures
            e matches Error::Syntax { line: l, column: c, msg: m } && l == self.line && c == self.column && m@
                == msg@,
    {
        Error::Syntax { line: self.line, column: self.column, msg: String::from_str(msg) }
    }

    /// Skips whitespace and `//` comments.
    fn skip_whitespace(&mut self)
        ensures
            final(self).text() == old(self).text(),
            final(self).pos() == skip_ws(old(self).text(), old(self).pos()),
    {
        proof {
            use_type_invariant(&*self);
        }
        let ghost target = skip_ws(self.input@, self.pos());
        let len = self.input.len();
        loop
            invariant
                len == self.input@.len(),
                self.input@ == old(self).text(),
                self.cursor <= len,
                skip_ws(self.input@, self.pos()) == target,
            ensures
                self.pos() == target,
            decreases len - self.cursor,
        {
            if self.cursor >= len {
                break;
            }
            let c = self.input[self.cursor];
            if ascii_ws(c) {
                if c == '\n' {
                    self.line = sat_add(self.line, 1);
                    self.column = 1;
                } else {
                    self.column = sat_add(self.column, 1);
                }
                self.cursor = self.cursor + 1;
            } else if c == '/' && self.cursor + 1 < len && self.input[self.cursor + 1] == '/' {
                let ghost p = self.pos();
                self.cursor = self.cursor + 2;
                proof {
                    lemma_comment_end(self.input@, p.at + 2);
                }
                while self.cursor < len && self.input[self.cursor] != '\n'
                    invariant
                        len == self.input@.len(),
                        self.input@ == old(self).text(),
                        p.at + 2 <= self.cursor <= len,
                        self.line == p.line,
                        self.column == p.col,
                        comment_end(self.input@, self.cursor as int) == comment_end(self.input@, p.at + 2),
                    decreases len - self.cursor,
                {
                    self.cursor = self.cursor + 1;
                }
            } else {
                break;
            }
        }
    }

    /// Reads a string, quoted or not, after whitespace and comments.
    fn parse_string(&mut self) -> (r: Result<String, Error>)
        ensures
            final(self).text() == old(self).text(),
            matches_string(r, parse_string(old(self).text(), old(self).pos())),
            final(self).pos() == end_pos(parse_string(old(self).text(), old(self).pos())),
            r is Ok ==> final(self).pos().at > old(self).pos().at,
    {
        proof {
            use_type_invariant(&*self);
            lemma_skip_ws(self.input@, self.pos());
        }
        self.skip_whitespace();
        proof {
            use_type_invariant(&*self);
        }
        let len = self.input.len();
        if self.cursor >= len {
            let r: Result<String, Error> = Err(Error::Eof);
            assert(matches_string(r, parse_string(old(self).text(), old(self).pos())));
            return r;
        }
        if self.input[self.cursor] == '"' {
            proof {
                lemma_skip_ws(old(self).text(), old(self).pos());
            }
            self.cursor = self.cursor + 1;
            self.column = sat_add(self.column, 1);
            let start = self.cursor;
            let ghost target = scan_quoted(self.input@, start as int, self.pos());
            assert(target == parse_string(old(self).text(), old(self).pos()));
            loop
                invariant
                    len == self.input@.len(),
                    self.input@ == old(self).text(),
                    start <= self.cursor <= len,
                    scan_quoted(self.input@, start as int, self.pos()) == target,
                    target == parse_string(old(self).text(), old(self).pos()),
                    old(self).pos().at < start,
                decreases len - self.cursor,
            {
                if self.cursor >= len {
                    let e = self.error("Unexpected end of file while parsing quoted string");
                    assert(target matches Err((f, _)) && fail_is(e, f));
                    let r: Result<String, Error> = Err(e);
                    assert(matches_string(r, target));
                    assert(matches_string(r, parse_string(old(self).text(), old(self).pos())));
                    return r;
                }
                let c = self.input[self.cursor];
                if c == '"' {
                    let end = self.cursor;
                    self.cursor = self.cursor + 1;
                    self.column = sat_add(self.column, 1);
                    let slice = &self.input.as_slice()[start..end];
                    let r: Result<String, Error> = Ok(string_from_chars(slice));
                    assert(matches_string(r, target));
                    assert(self.pos() == end_pos(target));
                    return r;
                } else if c == '\\' {
                    if self.cursor + 1 < len {
                        let w = width_utf8(self.input[self.cursor + 1]);
                        self.column = sat_add(self.column, 1 + w);
                        self.cursor = self.cursor + 2;
                    } else {
                        self.column = sat_add(self.column, 2);
                        self.cursor = len;
                    }
                } else if c == '\n' {
                    self.line = sat_add(self.line, 1);
                    self.column = 1;
                    self.cursor = self.cursor + 1;
                } else {
                    self.column = sat_add(self.column, width_utf8(c));
                    self.cursor = self.cursor + 1;
                }
            }
        } else {
            let start = self.cursor;
            let ghost p = self.pos();
            let ghost target = scan_bare(self.input@, p);
            proof {
                lemma_scan_bare(self.input@, p);
            }
            while self.cursor < len
                invariant
                    len == self.input@.len(),
                    self.input@ == old(self).text(),
                    start <= self.cursor <= len,
                    self.line == p.line,
                    scan_bare(self.input@, self.pos()) == target,
                ensures
                    self.pos() == target,
                decreases len - self.cursor,
            {
                let c = self.input[self.cursor];
                if ascii_ws(c) || c == '{' || c == '}' || c == '"' {
                    break;
                }
                self.column = sat_add(self.column, width_utf8(c));
                self.cursor = self.cursor + 1;
            }
            if start == self.cursor {
                let r: Result<String, Error> = Err(self.error("Expected string"));
                assert("Expected string"@ == msg_expected_string());
                assert(matches_string(r, parse_string(old(self).text(), old(self).pos())));
                return r;
            }
            let slice = &self.input.as_slice()[start..self.cursor];
            let r: Result<String, Error> = Ok(string_from_chars(slice));
            assert(matches_string(r, parse_string(old(self).text(), old(self).pos())));
            r
        }
    }

    /// Reads a value: a block, or a string.
    pub fn parse_value(&mut self) -> (r: Result<Value, Error>)
        ensures
            final(self).text() == old(self).text(),
            matches_value(r, parse_value(old(self).text(), old(self).pos())),
            final(self).pos() == end_pos(parse_value(old(self).text(), old(self).pos())),
            r is Ok ==> final(self).pos().at > old(self).pos().at,
        decreases old(self).text().len() - old(self).pos().at, 1int,
    {
        proof {
            use_type_invariant(&*self);
            lemma_skip_ws(self.input@, self.pos());
        }
        self.skip_whitespace();
        proof {
            use_type_invariant(&*self);
        }
        match self.peek_char() {
            Some('{') => {
                let n = self.input.len();
                assert(self.cursor < n);
                self.cursor = self.cursor + 1;
                self.column = sat_add(self.column, 1);
                match self.parse_map_content() {
                    Ok(map) => Ok(Value::Obj(map)),
                    Err(e) => Err(e),
                }
            },
            Some('}') => {
                let e = self.error("Expected '{' or '\"', found '}'");
                assert("Expected '{' or '\"', found '}'"@ == msg_unexpected_close());
                Err(e)
            },
            Some(_) => {
                match self.parse_string() {
                    Ok(s) => Ok(Value::Str(s)),
                    Err(e) => Err(e),
                }
            },
            None => Err(Error::Eof),
        }
    }

    /// Reads the entries of a block up to and including its closing brace.
    pub fn parse_map_content(&mut self) -> (r: Result<Vec<Entry>, Error>)
        ensures
            final(self).text() == old(self).text(),
            matches_entries(r, parse_entries(old(self).text(), old(self).pos(), Seq::empty())),
            final(self).pos() == end_pos(parse_entries(old(self).text(), old(self).pos(), Seq::empty())),
            r is Ok ==> final(self).pos().at > old(self).pos().at,
        decreases old(self).text().len() - old(self).pos().at, 0int,
    {
        let mut map: Vec<Entry> = Vec::new();
        let ghost target = parse_entries(self.input@, self.pos(), Seq::empty());
        assert(entries_tree(map@) =~= Seq::empty());
        loop
            invariant
                self.input@ == old(self).text(),
                self.pos().at >= old(self).pos().at,
                parse_entries(self.input@, self.pos(), entries_tree(map@)) == target,
                target == parse_entries(old(self).text(), old(self).pos(), Seq::empty()),
            decreases self.input@.len() - self.pos().at,
        {
            proof {
                use_type_invariant(&*self);
                lemma_skip_ws(self.input@, self.pos());
            }
            let ghost p0 = self.pos();
            self.skip_whitespace();
            proof {
                use_type_invariant(&*self);
            }
            match self.peek_char() {
                Some('}') => {
                    let n = self.input.len();
                assert(self.cursor < n);
                    self.cursor = self.cursor + 1;
                    self.column = sat_add(self.column, 1);
                    return Ok(map);
                },
                None => {
                    let e = self.error("Expected '}', found EOF");
                    assert("Expected '}', found EOF"@ == msg_missing_close());
                    return Err(e);
                },
                Some(_) => {
                    let ghost p = self.pos();
                    let key = match self.parse_string() {
                        Ok(k) => k,
                        Err(e) => {
                            return Err(e);
                        },
                    };
                    proof {
                        use_type_invariant(&*self);
                    }
                    let ghost q = self.pos();
                    let value = match self.parse_value() {
                        Ok(v) => v,
                        Err(e) => {
                            return Err(e);
                        },
                    };
                    proof {
                        use_type_invariant(&*self);
                    }
                    insert_entry(&mut map, key, value);
                },
            }
        }
    }

    /// Reads the entries of a document up to its end.
    pub fn parse_root(&mut self) -> (r: Result<Value, Error>)
        ensures
            final(self).text() == old(self).text(),
            match parse_document(old(self).text(), old(self).pos(), Seq::empty()) {
                Ok((m, _)) => r matches Ok(v) && v@ == KvTree::Obj(m),
                Err((f, _)) => r matches Err(e) && fail_is(e, f),
            },
            final(self).pos() == end_pos(parse_document(old(self).text(), old(self).pos(), Seq::empty())),
    {
        let mut map: Vec<Entry> = Vec::new();
        let ghost target = parse_document(self.input@, self.pos(), Seq::empty());
        assert(entries_tree(map@) =~= Seq::empty());
        loop
            invariant_except_break
                parse_document(self.input@, self.pos(), entries_tree(map@)) == target,
            invariant
                self.input@ == old(self).text(),
                target == parse_document(old(self).text(), old(self).pos(), Seq::empty()),
            ensures
                match target {
                    Ok((m, p)) => entries_tree(map@) == m && self.pos() == p,
                    Err(_) => false,
                },
            decreases self.input@.len() - self.pos().at,
        {
            proof {
                use_type_invariant(&*self);
                lemma_skip_ws(self.input@, self.pos());
            }
            self.skip_whitespace();
            proof {
                use_type_invariant(&*self);
            }
            if self.peek_char().is_none() {
                break;
            }
            let key = match self.parse_string() {
                Ok(k) => k,
                Err(Error::Eof) => {
                    break;
                },
                Err(e) => {
                    return Err(e);
                },
            };
            proof {
                use_type_invariant(&*self);
            }
            let value = match self.parse_value() {
                Ok(v) => v,
                Err(e) => {
                    return Err(e);
                },
            };
            proof {
                use_type_invariant(&*self);
            }
            insert_entry(&mut map, key, value);
        }
        Ok(Value::Obj(map))
    }
}

} // verus!
