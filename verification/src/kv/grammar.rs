//! What reading KeyValues text yields, stated over the characters of the
//! text and a position in it.
//!
//! The position counts lines and columns as the reader reports them in
//! syntax errors: a line feed starts a new line at column 1, every other
//! character advances the column by the number of bytes of its UTF-8
//! encoding, except that a `//` comment does not advance it. Counters stop
//! at `usize::MAX`.

use vstd::prelude::*;
use crate::text::{is_ascii_ws, utf8_width};
use super::value::KvTree;

verus! {

/// A position in the text: the index of the next character, and the line
/// and column that the reader reports there.
pub struct Pos {
    pub at: int,
    pub line: int,
    pub col: int,
}

/// Why reading stopped.
pub enum Fail {
    /// The text ended where a string was expected.
    Eof,
    /// A syntax error with its line, column and message.
    Syntax { line: int, col: int, msg: Seq<char> },
}

/// `x`, or `usize::MAX` where `x` is larger.
pub open spec fn sat(x: int) -> int {
    if x > usize::MAX {
        usize::MAX as int
    } else {
        x
    }
}

/// The ordered entries of a block.
pub type KvMap = Seq<(Seq<char>, Seq<KvTree>)>;

/// Index of the first entry of `m` with key `k`, or -1.
pub open spec fn key_pos(m: KvMap, k: Seq<char>) -> int
    decreases m.len(),
{
    if m.len() == 0 {
        -1
    } else if m[0].0 == k {
        0
    } else {
        let r = key_pos(m.drop_first(), k);
        if r < 0 {
            -1
        } else {
            r + 1
        }
    }
}

/// Adds a value under a key: after the values already written under that
/// key, or as a new entry at the end.
pub open spec fn kv_insert(m: KvMap, k: Seq<char>, v: KvTree) -> KvMap {
    let i = key_pos(m, k);
    if i < 0 {
        m.push((k, seq![v]))
    } else {
        m.update(i, (k, m[i].1.push(v)))
    }
}

pub proof fn lemma_key_pos(m: KvMap, k: Seq<char>, i: int)
    requires
        0 <= i <= m.len(),
        forall|j: int| 0 <= j < i ==> #[trigger] m[j].0 != k,
    ensures
        i < m.len() && m[i].0 == k ==> key_pos(m, k) == i,
        i == m.len() ==> key_pos(m, k) == -1,
    decreases m.len(),
{
    if m.len() > 0 && i > 0 {
        let t = m.drop_first();
        assert forall|j: int| 0 <= j < i - 1 implies #[trigger] t[j].0 != k by {
            assert(t[j] == m[j + 1]);
        }
        lemma_key_pos(t, k, i - 1);
    }
}

pub proof fn lemma_key_pos_range(m: KvMap, k: Seq<char>)
    ensures
        -1 <= key_pos(m, k) < m.len(),
        key_pos(m, k) >= 0 ==> m[key_pos(m, k)].0 == k,
        key_pos(m, k) < 0 ==> forall|j: int| 0 <= j < m.len() ==> #[trigger] m[j].0 != k,
    decreases m.len(),
{
    if m.len() > 0 {
        lemma_key_pos_range(m.drop_first(), k);
        assert forall|j: int| 0 <= j < m.len() && key_pos(m, k) < 0 implies #[trigger] m[j].0 != k by {
            if j > 0 {
                assert(m[j] == m.drop_first()[j - 1]);
            }
        }
    }
}

/// Index of the line feed that ends a comment running from `i`, or the end
/// of the text.
pub open spec fn comment_end(s: Seq<char>, i: int) -> int
    decreases s.len() - i,
{
    if i < 0 || i >= s.len() || s[i] == '\n' {
        i
    } else {
        comment_end(s, i + 1)
    }
}

pub proof fn lemma_comment_end(s: Seq<char>, i: int)
    requires
        0 <= i,
    ensures
        i <= comment_end(s, i),
        comment_end(s, i) <= s.len() || comment_end(s, i) == i,
    decreases s.len() - i,
{
    if i < s.len() && s[i] != '\n' {
        lemma_comment_end(s, i + 1);
    }
}

/// Skips whitespace and `//` comments.
pub open spec fn skip_ws(s: Seq<char>, p: Pos) -> Pos
    decreases s.len() - p.at,
{
    if p.at < 0 || p.at >= s.len() {
        p
    } else if is_ascii_ws(s[p.at]) {
        if s[p.at] == '\n' {
            skip_ws(s, Pos { at: p.at + 1, line: sat(p.line + 1), col: 1 })
        } else {
            skip_ws(s, Pos { at: p.at + 1, line: p.line, col: sat(p.col + 1) })
        }
    } else if s[p.at] == '/' && p.at + 1 < s.len() && s[p.at + 1] == '/' {
        let e = comment_end(s, p.at + 2);
        if e > p.at && e <= s.len() {
            skip_ws(s, Pos { at: e, line: p.line, col: p.col })
        } else {
            p
        }
    } else {
        p
    }
}

pub proof fn lemma_skip_ws(s: Seq<char>, p: Pos)
    requires
        0 <= p.at <= s.len(),
    ensures
        p.at <= skip_ws(s, p).at <= s.len(),
    decreases s.len() - p.at,
{
    if p.at < s.len() {
        if is_ascii_ws(s[p.at]) {
            if s[p.at] == '\n' {
                lemma_skip_ws(s, Pos { at: p.at + 1, line: sat(p.line + 1), col: 1 });
            } else {
                lemma_skip_ws(s, Pos { at: p.at + 1, line: p.line, col: sat(p.col + 1) });
            }
        } else if s[p.at] == '/' && p.at + 1 < s.len() && s[p.at + 1] == '/' {
            lemma_comment_end(s, p.at + 2);
            let e = comment_end(s, p.at + 2);
            lemma_skip_ws(s, Pos { at: e, line: p.line, col: p.col });
        }
    }
}

pub open spec fn msg_unterminated() -> Seq<char> {
    "Unexpected end of file while parsing quoted string"@
}

pub open spec fn msg_expected_string() -> Seq<char> {
    "Expected string"@
}

pub open spec fn msg_unexpected_close() -> Seq<char> {
    "Expected '{' or '\"', found '}'"@
}

pub open spec fn msg_missing_close() -> Seq<char> {
    "Expected '}', found EOF"@
}

/// Reads the rest of a quoted string whose text starts at `start`: a quote
/// ends it, a backslash keeps the character after it from ending it, and the
/// text is kept exactly as written.
pub open spec fn scan_quoted(s: Seq<char>, start: int, p: Pos) -> Result<(Seq<char>, Pos), (Fail, Pos)>
    decreases s.len() - p.at,
{
    if p.at < 0 || p.at >= s.len() {
        Err((Fail::Syntax { line: p.line, col: p.col, msg: msg_unterminated() }, p))
    } else if s[p.at] == '"' {
        Ok((s.subrange(start, p.at), Pos { at: p.at + 1, line: p.line, col: sat(p.col + 1) }))
    } else if s[p.at] == '\\' {
        if p.at + 1 < s.len() {
            scan_quoted(
                s,
                start,
                Pos { at: p.at + 2, line: p.line, col: sat(p.col + 1 + utf8_width(s[p.at + 1])) },
            )
        } else {
            scan_quoted(s, start, Pos { at: s.len() as int, line: p.line, col: sat(p.col + 2) })
        }
    } else if s[p.at] == '\n' {
        scan_quoted(s, start, Pos { at: p.at + 1, line: sat(p.line + 1), col: 1 })
    } else {
        scan_quoted(s, start, Pos { at: p.at + 1, line: p.line, col: sat(p.col + utf8_width(s[p.at])) })
    }
}

/// Ends an unquoted string: whitespace, a brace or a quote.
pub open spec fn ends_bare(c: char) -> bool {
    is_ascii_ws(c) || c == '{' || c == '}' || c == '"'
}

/// Reads the characters of an unquoted string.
pub open spec fn scan_bare(s: Seq<char>, p: Pos) -> Pos
    decreases s.len() - p.at,
{
    if p.at < 0 || p.at >= s.len() || ends_bare(s[p.at]) {
        p
    } else {
        scan_bare(s, Pos { at: p.at + 1, line: p.line, col: sat(p.col + utf8_width(s[p.at])) })
    }
}

pub proof fn lemma_scan_bare(s: Seq<char>, p: Pos)
    requires
        0 <= p.at <= s.len(),
    ensures
        p.at <= scan_bare(s, p).at <= s.len(),
        scan_bare(s, p).at == p.at ==> scan_bare(s, p) == p,
    decreases s.len() - p.at,
{
    if p.at < s.len() && !ends_bare(s[p.at]) {
        lemma_scan_bare(s, Pos { at: p.at + 1, line: p.line, col: sat(p.col + utf8_width(s[p.at])) });
    }
}

/// Reads a string, quoted or not, after whitespace and comments.
pub open spec fn parse_string(s: Seq<char>, p0: Pos) -> Result<(Seq<char>, Pos), (Fail, Pos)> {
    let p = skip_ws(s, p0);
    if p.at < 0 || p.at >= s.len() {
        Err((Fail::Eof, p))
    } else if s[p.at] == '"' {
        scan_quoted(s, p.at + 1, Pos { at: p.at + 1, line: p.line, col: sat(p.col + 1) })
    } else {
        let q = scan_bare(s, p);
        if q.at == p.at {
            Err((Fail::Syntax { line: p.line, col: p.col, msg: msg_expected_string() }, p))
        } else {
            Ok((s.subrange(p.at, q.at), q))
        }
    }
}

/// Reads a value: a block, or a string.
pub open spec fn parse_value(s: Seq<char>, p0: Pos) -> Result<(KvTree, Pos), (Fail, Pos)>
    decreases s.len() - p0.at, 1int,
{
    let p = skip_ws(s, p0);
    if p.at < 0 || p.at >= s.len() || p.at < p0.at {
        Err((Fail::Eof, p))
    } else if s[p.at] == '{' {
        match parse_entries(s, Pos { at: p.at + 1, line: p.line, col: sat(p.col + 1) }, Seq::empty()) {
            Ok((m, q)) => Ok((KvTree::Obj(m), q)),
            Err(e) => Err(e),
        }
    } else if s[p.at] == '}' {
        Err((Fail::Syntax { line: p.line, col: p.col, msg: msg_unexpected_close() }, p))
    } else {
        match parse_string(s, p) {
            Ok((t, q)) => Ok((KvTree::Str(t), q)),
            Err(e) => Err(e),
        }
    }
}

/// Reads the entries of a block up to and including its closing brace,
/// adding them to `acc`.
pub open spec fn parse_entries(s: Seq<char>, p0: Pos, acc: KvMap) -> Result<(KvMap, Pos), (Fail, Pos)>
    decreases s.len() - p0.at, 0int,
{
    let p = skip_ws(s, p0);
    if p.at < 0 || p.at >= s.len() || p.at < p0.at {
        Err((Fail::Syntax { line: p.line, col: p.col, msg: msg_missing_close() }, p))
    } else if s[p.at] == '}' {
        Ok((acc, Pos { at: p.at + 1, line: p.line, col: sat(p.col + 1) }))
    } else {
        match parse_string(s, p) {
            Err(e) => Err(e),
            Ok((k, q)) => if q.at <= p.at || q.at > s.len() {
                Err((Fail::Eof, q))
            } else {
                match parse_value(s, q) {
                    Err(e) => Err(e),
                    Ok((v, r)) => if r.at <= q.at || r.at > s.len() {
                        Err((Fail::Eof, r))
                    } else {
                        parse_entries(s, r, kv_insert(acc, k, v))
                    },
                }
            },
        }
    }
}

/// Reads the entries of a document up to its end, adding them to `acc`.
pub open spec fn parse_document(s: Seq<char>, p0: Pos, acc: KvMap) -> Result<(KvMap, Pos), (Fail, Pos)>
    decreases s.len() - p0.at,
{
    let p = skip_ws(s, p0);
    if p.at < 0 || p.at >= s.len() || p.at < p0.at {
        Ok((acc, p))
    } else {
        match parse_string(s, p) {
            Err((Fail::Eof, e)) => Ok((acc, e)),
            Err(e) => Err(e),
            Ok((k, q)) => if q.at <= p.at || q.at > s.len() {
                Err((Fail::Eof, q))
            } else {
                match parse_value(s, q) {
                    Err(e) => Err(e),
                    Ok((v, r)) => if r.at <= q.at || r.at > s.len() {
                        Err((Fail::Eof, r))
                    } else {
                        parse_document(s, r, kv_insert(acc, k, v))
                    },
                }
            },
        }
    }
}

/// The start of a text.
pub open spec fn start() -> Pos {
    Pos { at: 0, line: 1, col: 1 }
}

/// What reading a whole document yields.
pub open spec fn parse_kv(s: Seq<char>) -> Result<KvTree, Fail> {
    match parse_document(s, start(), Seq::empty()) {
        Ok((m, _)) => Ok(KvTree::Obj(m)),
        Err((e, _)) => Err(e),
    }
}

proof fn lemma_comment_runs_to(s: Seq<char>, i: int, e: int)
    requires
        0 <= i <= e < s.len(),
        s[e] == '\n',
        forall|j: int| i <= j < e ==> s[j] != '\n',
    ensures
        comment_end(s, i) == e,
    decreases e - i,
{
    if i < e {
        lemma_comment_runs_to(s, i + 1, e);
    }
}

/// Reading skips a `//` comment up to the end of its line: wherever a
/// comment starts between tokens, skipping white space, reading a value,
/// the entries of a block or a document from its start gives what the same
/// reading gives from the line feed that ends it, and white space is
/// skipped on from the start of the next line.
pub proof fn lemma_comment_skipped(a: Seq<char>, c: Seq<char>, b: Seq<char>, p: Pos, acc: KvMap)
    requires
        p.at == a.len(),
        forall|j: int| 0 <= j < c.len() ==> c[j] != '\n',
    ensures
        ({
            let s = a + seq!['/', '/'] + c + seq!['\n'] + b;
            let q = Pos { at: a.len() as int + 2 + c.len(), line: p.line, col: p.col };
            &&& skip_ws(s, p) == skip_ws(s, q)
            &&& skip_ws(s, p) == skip_ws(s, Pos { at: q.at + 1, line: sat(p.line + 1), col: 1 })
            &&& parse_value(s, p) == parse_value(s, q)
            &&& parse_entries(s, p, acc) == parse_entries(s, q, acc)
            &&& parse_document(s, p, acc) == parse_document(s, q, acc)
        }),
{
    let s = a + seq!['/', '/'] + c + seq!['\n'] + b;
    let e: int = a.len() as int + 2 + c.len();
    let q = Pos { at: e, line: p.line, col: p.col };
    assert(s[p.at] == '/');
    assert(s[p.at + 1] == '/');
    assert(s[e] == '\n');
    assert forall|j: int| p.at + 2 <= j < e implies s[j] != '\n' by {
        assert(s[j] == c[j - p.at - 2]);
    }
    lemma_comment_runs_to(s, p.at + 2, e);
    assert(skip_ws(s, p) == skip_ws(s, q));
    let n = Pos { at: e + 1, line: sat(p.line + 1), col: 1 };
    assert(skip_ws(s, q) == skip_ws(s, n));
    lemma_skip_ws(s, n);
    let r = skip_ws(s, p);
    assert(r.at >= q.at && r.at >= p.at);
}

} // verus!
