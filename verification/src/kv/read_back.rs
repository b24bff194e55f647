//! Reading back what the writer writes: a document whose keys and strings
//! the text can carry reads back as the same document.

use vstd::prelude::*;
use crate::text::is_ascii_ws;
use super::grammar::{
    KvMap, Pos, ends_bare, key_pos, kv_insert, parse_document, parse_entries, parse_kv, parse_string, parse_value,
    sat, scan_bare, scan_quoted, skip_ws, start,
};
use super::ser::{entries_text, kv_text, quoted, tabs, value_text, values_text};
use super::value::KvTree;

verus! {

/// Whether the characters of `s` from `a` to `b` are all white space.
pub open spec fn all_ws(s: Seq<char>, a: int, b: int) -> bool {
    forall|k: int| a <= k < b ==> is_ascii_ws(#[trigger] s[k])
}

/// Whether a comment or white space could start at `j`.
pub open spec fn starts_gap(s: Seq<char>, j: int) -> bool {
    0 <= j < s.len() && (is_ascii_ws(s[j]) || (s[j] == '/' && j + 1 < s.len() && s[j + 1] == '/'))
}

/// Skipping white space from `p` stops at `j` when only white space lies
/// between them and no white space or comment starts at `j`.
proof fn lemma_skip_to(s: Seq<char>, p: Pos, j: int)
    requires
        0 <= p.at <= j <= s.len(),
        all_ws(s, p.at, j),
        !starts_gap(s, j),
    ensures
        skip_ws(s, p).at == j,
    decreases j - p.at,
{
    if p.at < j {
        assert(is_ascii_ws(s[p.at]));
        if s[p.at] == '\n' {
            lemma_skip_to(s, Pos { at: p.at + 1, line: sat(p.line + 1), col: 1 }, j);
        } else {
            lemma_skip_to(s, Pos { at: p.at + 1, line: p.line, col: sat(p.col + 1) }, j);
        }
    }
}

/// Whether the characters of `s` from `i` up to `end` read as the text of
/// a quoted string up to `end`: no quote ends it early, and no backslash
/// keeps the character at `end` from ending it.
pub open spec fn escapes_ok(s: Seq<char>, i: int, end: int) -> bool
    decreases end - i,
{
    if i >= end {
        true
    } else if s[i] == '"' {
        false
    } else if s[i] == '\\' {
        i + 1 < end && escapes_ok(s, i + 2, end)
    } else {
        escapes_ok(s, i + 1, end)
    }
}

/// A string that a quoted string of the text carries unchanged: every
/// quote in it follows a backslash that keeps it from ending the string,
/// and it does not end in such a backslash (the reader keeps the text
/// exactly as written).
pub open spec fn quotable(t: Seq<char>) -> bool {
    escapes_ok(t, 0, t.len() as int)
}

/// Whether the text is read as a quoted string does not depend on where it
/// stands.
proof fn lemma_escapes_shift(s: Seq<char>, a: int, t: Seq<char>, i: int)
    requires
        0 <= a,
        a + t.len() <= s.len(),
        forall|j: int| 0 <= j < t.len() ==> #[trigger] s[a + j] == t[j],
        0 <= i <= t.len() + 1,
    ensures
        escapes_ok(s, a + i, a + t.len()) == escapes_ok(t, i, t.len() as int),
    decreases t.len() - i,
{
    if i < t.len() {
        assert(s[a + i] == t[i]);
        if t[i] == '\\' {
            if i + 1 < t.len() {
                lemma_escapes_shift(s, a, t, i + 2);
            }
        } else if t[i] != '"' {
            lemma_escapes_shift(s, a, t, i + 1);
        }
    }
}

/// Scanning a quoted string whose text reads as one up to a quote gives
/// that text, and stops after the quote.
proof fn lemma_scan_quoted(s: Seq<char>, start: int, p: Pos, end: int)
    requires
        0 <= start <= p.at <= end < s.len(),
        s[end] == '"',
        escapes_ok(s, p.at, end),
    ensures
        scan_quoted(s, start, p) is Ok,
        scan_quoted(s, start, p)->Ok_0.0 == s.subrange(start, end),
        scan_quoted(s, start, p)->Ok_0.1.at == end + 1,
    decreases end - p.at,
{
    if p.at < end {
        let c = s[p.at];
        if c == '\\' {
            lemma_scan_quoted(
                s,
                start,
                Pos { at: p.at + 2, line: p.line, col: sat(p.col + 1 + crate::text::utf8_width(s[p.at + 1])) },
                end,
            );
        } else if c == '\n' {
            lemma_scan_quoted(s, start, Pos { at: p.at + 1, line: sat(p.line + 1), col: 1 }, end);
        } else {
            lemma_scan_quoted(
                s,
                start,
                Pos { at: p.at + 1, line: p.line, col: sat(p.col + crate::text::utf8_width(c)) },
                end,
            );
        }
    }
}

/// A key that the writer can put before a block: not empty, none of the
/// characters that end a bare string, and no comment start.
pub open spec fn bare_key(k: Seq<char>) -> bool {
    &&& k.len() > 0
    &&& forall|i: int| 0 <= i < k.len() ==> !ends_bare(#[trigger] k[i])
    &&& !(k.len() >= 2 && k[0] == '/' && k[1] == '/')
}

/// Scanning a bare string stops at the first character that ends one.
proof fn lemma_scan_bare_to(s: Seq<char>, p: Pos, end: int)
    requires
        0 <= p.at <= end < s.len(),
        ends_bare(s[end]),
        forall|i: int| p.at <= i < end ==> !ends_bare(#[trigger] s[i]),
    ensures
        scan_bare(s, p).at == end,
    decreases end - p.at,
{
    if p.at < end {
        assert(!ends_bare(s[p.at]));
        lemma_scan_bare_to(
            s,
            Pos { at: p.at + 1, line: p.line, col: sat(p.col + crate::text::utf8_width(s[p.at])) },
            end,
        );
    }
}

/// A value the writer can put under `k`: a string pair of quotable texts, or
/// a block under a bare key whose entries the writer can put.
pub open spec fn wf_value(k: Seq<char>, v: KvTree) -> bool
    decreases v, 0nat,
{
    match v {
        KvTree::Str(t) => quotable(k) && quotable(t),
        KvTree::Obj(m) => bare_key(k) && wf_entries(m),
    }
}

/// Values the writer can put under `k`.
pub open spec fn wf_values(k: Seq<char>, vs: Seq<KvTree>) -> bool
    decreases vs, 1nat,
{
    if vs.len() == 0 {
        true
    } else {
        wf_values(k, vs.drop_last()) && wf_value(k, vs.last())
    }
}

/// Entries that read back as themselves: each key once, each with at
/// least one value, and every value one the writer can put.
pub open spec fn wf_entries(m: KvMap) -> bool
    decreases m, 1nat,
{
    if m.len() == 0 {
        true
    } else {
        &&& wf_entries(m.drop_last())
        &&& m.last().1.len() > 0
        &&& wf_values(m.last().0, m.last().1)
        &&& key_pos(m.drop_last(), m.last().0) < 0
    }
}

/// Reading entries up to a closing brace, or a document up to its end.
pub open spec fn parse_seq(s: Seq<char>, p: Pos, acc: KvMap, doc: bool) -> Result<(KvMap, Pos), (super::grammar::Fail, Pos)> {
    if doc {
        parse_document(s, p, acc)
    } else {
        parse_entries(s, p, acc)
    }
}

/// Whether `text` stands in `s` at `a`.
pub open spec fn text_at(s: Seq<char>, a: int, text: Seq<char>) -> bool {
    0 <= a && a + text.len() <= s.len() && s.subrange(a, a + text.len()) == text
}

proof fn lemma_text_at(s: Seq<char>, a: int, text: Seq<char>, j: int)
    requires
        text_at(s, a, text),
        0 <= j < text.len(),
    ensures
        s[a + j] == text[j],
{
    assert(s.subrange(a, a + text.len())[j] == s[a + j]);
}

proof fn lemma_tabs_ws(s: Seq<char>, a: int, n: nat)
    requires
        text_at(s, a, tabs(n)),
    ensures
        all_ws(s, a, a + n),
{
    assert forall|k: int| a <= k < a + n implies is_ascii_ws(#[trigger] s[k]) by {
        lemma_text_at(s, a, tabs(n), k - a);
    }
}

proof fn lemma_ws_join(s: Seq<char>, a: int, b: int, c: int)
    requires
        a <= b <= c,
        all_ws(s, a, b),
        all_ws(s, b, c),
    ensures
        all_ws(s, a, c),
{
}

/// Reading a string value pair: the key and the string are read, and the
/// reading goes on right before the line feed that ends the pair.
proof fn lemma_str_pair(s: Seq<char>, p: Pos, a: int, k: Seq<char>, t: Seq<char>, indent: nat, acc: KvMap, doc: bool)
    requires
        0 <= p.at <= a,
        all_ws(s, p.at, a),
        text_at(s, a, value_text(KvTree::Str(t), k, indent)),
        quotable(k),
        quotable(t),
    ensures
        exists|r: Pos|
            r.at == a + value_text(KvTree::Str(t), k, indent).len() - 1 && parse_seq(s, p, acc, doc) == parse_seq(
                s,
                r,
                kv_insert(acc, k, KvTree::Str(t)),
                doc,
            ),
{
    let n = indent as int;
    let text = value_text(KvTree::Str(t), k, indent);
    assert(text =~= tabs(indent) + seq!['"'] + k + seq!['"', ' ', '"'] + t + seq!['"', '\n']);
    let kq = a + n;
    let kc = kq + 1 + k.len();
    let vq = kc + 2;
    let vc = vq + 1 + t.len();
    let end = a + text.len();
    assert(end == vc + 2);
    assert(text_at(s, a, tabs(indent))) by {
        assert(s.subrange(a, a + n) =~= text.subrange(0, n));
        assert(text.subrange(0, n) =~= tabs(indent));
    }
    lemma_tabs_ws(s, a, indent);
    lemma_text_at(s, a, text, n);
    lemma_text_at(s, a, text, n + 1 + k.len());
    lemma_text_at(s, a, text, n + 2 + k.len());
    lemma_text_at(s, a, text, n + 3 + k.len());
    lemma_text_at(s, a, text, n + 4 + k.len() + t.len());
    lemma_text_at(s, a, text, n + 5 + k.len() + t.len());
    assert(s[kq] == '"');
    assert(s[kc] == '"');
    assert(s[kc + 1] == ' ');
    assert(s[vq] == '"');
    assert(s[vc] == '"');
    assert(s[vc + 1] == '\n');
    assert forall|j: int| 0 <= j < k.len() implies #[trigger] s[kq + 1 + j] == k[j] by {
        lemma_text_at(s, a, text, n + 1 + j);
    }
    assert forall|j: int| 0 <= j < t.len() implies #[trigger] s[vq + 1 + j] == t[j] by {
        lemma_text_at(s, a, text, n + 4 + k.len() + j);
    }
    lemma_escapes_shift(s, kq + 1, k, 0);
    lemma_escapes_shift(s, vq + 1, t, 0);
    assert(s.subrange(kq + 1, kc) =~= k) by {
        assert forall|i: int| 0 <= i < k.len() implies s.subrange(kq + 1, kc)[i] == k[i] by {
            lemma_text_at(s, a, text, n + 1 + i);
        }
    }
    assert(s.subrange(vq + 1, vc) =~= t) by {
        assert forall|i: int| 0 <= i < t.len() implies s.subrange(vq + 1, vc)[i] == t[i] by {
            lemma_text_at(s, a, text, n + 4 + k.len() + i);
        }
    }
    lemma_ws_join(s, p.at, a, kq);
    lemma_skip_to(s, p, kq);
    let p1 = skip_ws(s, p);
    assert(p1.at == kq);
    lemma_skip_to(s, p1, kq);
    let sp = skip_ws(s, p1);
    lemma_scan_quoted(s, kq + 1, Pos { at: kq + 1, line: sp.line, col: sat(sp.col + 1) }, kc);
    let ks = parse_string(s, p1);
    assert(ks is Ok && ks->Ok_0.0 == k && ks->Ok_0.1.at == kc + 1);
    let q = ks->Ok_0.1;
    lemma_skip_to(s, q, vq);
    let pv = skip_ws(s, q);
    lemma_skip_to(s, pv, vq);
    let pv2 = skip_ws(s, pv);
    lemma_scan_quoted(s, vq + 1, Pos { at: vq + 1, line: pv2.line, col: sat(pv2.col + 1) }, vc);
    let vs = parse_string(s, pv);
    assert(vs is Ok && vs->Ok_0.0 == t && vs->Ok_0.1.at == vc + 1);
    let r = vs->Ok_0.1;
    let pvv = parse_value(s, q);
    assert(pvv == Ok::<(KvTree, Pos), (super::grammar::Fail, Pos)>((KvTree::Str(t), r)));
    if doc {
        assert(parse_document(s, p, acc) == parse_document(s, r, kv_insert(acc, k, KvTree::Str(t))));
    } else {
        assert(parse_entries(s, p, acc) == parse_entries(s, r, kv_insert(acc, k, KvTree::Str(t))));
    }
    assert(r.at == a + text.len() - 1);
    assert(parse_seq(s, p, acc, doc) == parse_seq(s, r, kv_insert(acc, k, KvTree::Str(t)), doc));
}

/// Inserting the values `vs` under `k`, in order.
pub open spec fn fold_values(acc: KvMap, k: Seq<char>, vs: Seq<KvTree>) -> KvMap
    decreases vs.len(),
{
    if vs.len() == 0 {
        acc
    } else {
        kv_insert(fold_values(acc, k, vs.drop_last()), k, vs.last())
    }
}

/// Inserting the values of the entries of `m`, entry by entry.
pub open spec fn fold_entries(acc: KvMap, m: KvMap) -> KvMap
    decreases m.len(),
{
    if m.len() == 0 {
        acc
    } else {
        fold_values(fold_entries(acc, m.drop_last()), m.last().0, m.last().1)
    }
}

proof fn lemma_fold_values_new(acc: KvMap, k: Seq<char>, vs: Seq<KvTree>)
    requires
        key_pos(acc, k) < 0,
        vs.len() > 0,
    ensures
        fold_values(acc, k, vs) == acc.push((k, vs)),
    decreases vs.len(),
{
    super::grammar::lemma_key_pos_range(acc, k);
    if vs.len() == 1 {
        assert(vs.drop_last() =~= Seq::<KvTree>::empty());
        assert(fold_values(acc, k, vs.drop_last()) == acc);
        assert(fold_values(acc, k, vs) == kv_insert(acc, k, vs.last()));
        assert(seq![vs.last()] =~= vs);
    } else {
        lemma_fold_values_new(acc, k, vs.drop_last());
        let m = acc.push((k, vs.drop_last()));
        assert forall|j: int| 0 <= j < acc.len() implies #[trigger] m[j].0 != k by {
            assert(m[j] == acc[j]);
        }
        assert(m[acc.len() as int] == (k, vs.drop_last()));
        super::grammar::lemma_key_pos(m, k, acc.len() as int);
        assert(key_pos(m, k) == acc.len());
        assert(fold_values(acc, k, vs) == kv_insert(m, k, vs.last()));
        assert(vs.drop_last().push(vs.last()) =~= vs);
        assert(m.update(acc.len() as int, (k, vs.drop_last().push(vs.last()))) =~= acc.push((k, vs)));
    }
}

proof fn lemma_fold_entries(acc: KvMap, m: KvMap)
    requires
        wf_entries(m),
        forall|j: int| 0 <= j < m.len() ==> key_pos(acc, #[trigger] m[j].0) < 0,
    ensures
        fold_entries(acc, m) == acc + m,
    decreases m.len(),
{
    if m.len() == 0 {
        assert(acc + m =~= acc);
    } else {
        let dl = m.drop_last();
        assert forall|j: int| 0 <= j < dl.len() implies key_pos(acc, #[trigger] dl[j].0) < 0 by {
            assert(dl[j] == m[j]);
        }
        lemma_fold_entries(acc, dl);
        let k = m.last().0;
        assert(m[m.len() - 1] == m.last());
        super::grammar::lemma_key_pos_range(acc, k);
        super::grammar::lemma_key_pos_range(dl, k);
        let ad = acc + dl;
        assert forall|j: int| 0 <= j < ad.len() implies #[trigger] ad[j].0 != k by {
            if j < acc.len() {
                assert(ad[j] == acc[j]);
            } else {
                assert(ad[j] == dl[j - acc.len()]);
            }
        }
        super::grammar::lemma_key_pos(ad, k, ad.len() as int);
        lemma_fold_values_new(ad, k, m.last().1);
        assert(ad.push((k, m.last().1)) =~= acc + m);
    }
}

/// Reading entries stops at a closing brace after white space.
proof fn lemma_close(s: Seq<char>, p: Pos, b: int, acc: KvMap)
    requires
        0 <= p.at <= b < s.len(),
        all_ws(s, p.at, b),
        s[b] == '}',
    ensures
        parse_entries(s, p, acc) is Ok,
        parse_entries(s, p, acc)->Ok_0.0 == acc,
        parse_entries(s, p, acc)->Ok_0.1.at == b + 1,
{
    lemma_skip_to(s, p, b);
}

/// Reading a document stops at its end after white space.
proof fn lemma_doc_end(s: Seq<char>, p: Pos, acc: KvMap)
    requires
        0 <= p.at <= s.len(),
        all_ws(s, p.at, s.len() as int),
    ensures
        parse_document(s, p, acc) is Ok,
        parse_document(s, p, acc)->Ok_0.0 == acc,
{
    lemma_skip_to(s, p, s.len() as int);
}

#[verifier::rlimit(80)]
/// Reading a block value under a bare key: the key, then the block's
/// entries up to its closing brace; the reading goes on right before the
/// line feed that ends the block.
proof fn lemma_block_pair(s: Seq<char>, p: Pos, a: int, k: Seq<char>, m: KvMap, indent: nat, acc: KvMap, doc: bool)
    requires
        0 <= p.at <= a,
        all_ws(s, p.at, a),
        text_at(s, a, value_text(KvTree::Obj(m), k, indent)),
        bare_key(k),
        wf_entries(m),
    ensures
        exists|r: Pos|
            r.at == a + value_text(KvTree::Obj(m), k, indent).len() - 1 && parse_seq(s, p, acc, doc) == parse_seq(
                s,
                r,
                kv_insert(acc, k, KvTree::Obj(m)),
                doc,
            ),
    decreases m, 2nat,
{
    let n = indent as int;
    let inner = sat(indent + 1int) as nat;
    let e = entries_text(m, inner);
    let text = value_text(KvTree::Obj(m), k, indent);
    assert(text =~= tabs(indent) + k + seq!['\n'] + tabs(indent) + seq!['{', '\n'] + e + tabs(indent) + seq!['}', '\n']);
    let kb = a + n;
    let ke = kb + k.len();
    let brace = ke + 1 + n;
    let eb = brace + 2;
    let ee = eb + e.len();
    let close = ee + n;
    let end = a + text.len();
    assert(end == close + 2);
    assert(text_at(s, a, tabs(indent))) by {
        assert(s.subrange(a, a + n) =~= tabs(indent)) by {
            assert forall|i: int| 0 <= i < n implies s.subrange(a, a + n)[i] == tabs(indent)[i] by {
                lemma_text_at(s, a, text, i);
            }
        }
    }
    assert(text_at(s, ke + 1, tabs(indent))) by {
        assert(s.subrange(ke + 1, ke + 1 + n) =~= tabs(indent)) by {
            assert forall|i: int| 0 <= i < n implies s.subrange(ke + 1, ke + 1 + n)[i] == tabs(indent)[i] by {
                lemma_text_at(s, a, text, ke + 1 + i - a);
            }
        }
    }
    assert(text_at(s, ee, tabs(indent))) by {
        assert(s.subrange(ee, ee + n) =~= tabs(indent)) by {
            assert forall|i: int| 0 <= i < n implies s.subrange(ee, ee + n)[i] == tabs(indent)[i] by {
                lemma_text_at(s, a, text, ee + i - a);
            }
        }
    }
    assert(text_at(s, eb, e)) by {
        assert(s.subrange(eb, ee) =~= e) by {
            assert forall|i: int| 0 <= i < e.len() implies s.subrange(eb, ee)[i] == e[i] by {
                lemma_text_at(s, a, text, eb + i - a);
            }
        }
    }
    lemma_tabs_ws(s, a, indent);
    lemma_tabs_ws(s, ke + 1, indent);
    lemma_tabs_ws(s, ee, indent);
    lemma_text_at(s, a, text, ke - a);
    lemma_text_at(s, a, text, brace - a);
    lemma_text_at(s, a, text, brace + 1 - a);
    lemma_text_at(s, a, text, close - a);
    lemma_text_at(s, a, text, close + 1 - a);
    assert(s[ke] == '\n');
    assert(s[brace] == '{');
    assert(s[brace + 1] == '\n');
    assert(s[close] == '}');
    assert(s[close + 1] == '\n');
    assert forall|i: int| kb <= i < ke implies #[trigger] s[i] == k[i - kb] by {
        lemma_text_at(s, a, text, i - a);
    }
    assert forall|i: int| kb <= i < ke implies !ends_bare(#[trigger] s[i]) by {
        assert(s[i] == k[i - kb]);
    }
    assert(s.subrange(kb, ke) =~= k);
    // The key.
    lemma_ws_join(s, p.at, a, kb);
    assert(!starts_gap(s, kb)) by {
        assert(s[kb] == k[0]);
        if k.len() >= 2 {
            assert(s[kb + 1] == k[1]);
        }
    }
    lemma_skip_to(s, p, kb);
    let p1 = skip_ws(s, p);
    lemma_skip_to(s, p1, kb);
    let sp = skip_ws(s, p1);
    lemma_scan_bare_to(s, sp, ke);
    let ks = parse_string(s, p1);
    assert(ks is Ok && ks->Ok_0.0 == k && ks->Ok_0.1.at == ke);
    let q = ks->Ok_0.1;
    // The block.
    assert(all_ws(s, ke, ke + 1));
    lemma_ws_join(s, ke, ke + 1, brace);
    lemma_skip_to(s, q, brace);
    let pv = skip_ws(s, q);
    let pe = Pos { at: brace + 1, line: pv.line, col: sat(pv.col + 1) };
    assert(all_ws(s, brace + 1, eb));
    lemma_entries(s, pe, eb, m, inner, Seq::empty(), false);
    let r1 = choose|r1: Pos|
        pe.at <= r1.at <= ee && all_ws(s, r1.at, ee) && parse_seq(s, pe, Seq::empty(), false) == parse_seq(
            s,
            r1,
            fold_entries(Seq::empty(), m),
            false,
        );
    lemma_ws_join(s, r1.at, ee, close);
    lemma_close(s, r1, close, fold_entries(Seq::empty(), m));
    lemma_fold_entries(Seq::empty(), m);
    assert(Seq::<(Seq<char>, Seq<KvTree>)>::empty() + m =~= m);
    let r = parse_entries(s, r1, fold_entries(Seq::empty(), m))->Ok_0.1;
    assert(parse_value(s, q) == Ok::<(KvTree, Pos), (super::grammar::Fail, Pos)>((KvTree::Obj(m), r)));
    if doc {
        assert(parse_document(s, p, acc) == parse_document(s, r, kv_insert(acc, k, KvTree::Obj(m))));
    } else {
        assert(parse_entries(s, p, acc) == parse_entries(s, r, kv_insert(acc, k, KvTree::Obj(m))));
    }
    assert(r.at == end - 1);
    assert(parse_seq(s, p, acc, doc) == parse_seq(s, r, kv_insert(acc, k, KvTree::Obj(m)), doc));
}

/// Reading one value written under `k`.
proof fn lemma_value(s: Seq<char>, p: Pos, a: int, k: Seq<char>, v: KvTree, indent: nat, acc: KvMap, doc: bool)
    requires
        0 <= p.at <= a,
        all_ws(s, p.at, a),
        text_at(s, a, value_text(v, k, indent)),
        wf_value(k, v),
    ensures
        exists|r: Pos|
            p.at <= r.at <= a + value_text(v, k, indent).len() && all_ws(s, r.at, a + value_text(v, k, indent).len())
                && parse_seq(s, p, acc, doc) == parse_seq(s, r, kv_insert(acc, k, v), doc),
    decreases v, 3nat,
{
    let end = a + value_text(v, k, indent).len();
    match v {
        KvTree::Str(t) => {
            lemma_str_pair(s, p, a, k, t, indent, acc, doc);
            let r = choose|r: Pos|
                r.at == end - 1 && parse_seq(s, p, acc, doc) == parse_seq(s, r, kv_insert(acc, k, v), doc);
            lemma_text_at(s, a, value_text(v, k, indent), value_text(v, k, indent).len() - 1);
            assert(value_text(v, k, indent).last() == '\n');
            assert(all_ws(s, r.at, end));
        },
        KvTree::Obj(m) => {
            lemma_block_pair(s, p, a, k, m, indent, acc, doc);
            let r = choose|r: Pos|
                r.at == end - 1 && parse_seq(s, p, acc, doc) == parse_seq(s, r, kv_insert(acc, k, v), doc);
            lemma_text_at(s, a, value_text(v, k, indent), value_text(v, k, indent).len() - 1);
            assert(value_text(v, k, indent).last() == '\n');
            assert(all_ws(s, r.at, end));
        },
    }
}

/// Reading the values written under `k`, in order.
proof fn lemma_values(s: Seq<char>, p: Pos, a: int, k: Seq<char>, vs: Seq<KvTree>, indent: nat, acc: KvMap, doc: bool)
    requires
        0 <= p.at <= a,
        all_ws(s, p.at, a),
        text_at(s, a, values_text(vs, k, indent)),
        wf_values(k, vs),
    ensures
        exists|r: Pos|
            p.at <= r.at <= a + values_text(vs, k, indent).len() && all_ws(s, r.at, a + values_text(vs, k, indent).len())
                && parse_seq(s, p, acc, doc) == parse_seq(s, r, fold_values(acc, k, vs), doc),
    decreases vs, 1nat,
{
    if vs.len() == 0 {
        assert(parse_seq(s, p, acc, doc) == parse_seq(s, p, fold_values(acc, k, vs), doc));
    } else {
        let dl = vs.drop_last();
        let t0 = values_text(dl, k, indent);
        let t1 = value_text(vs.last(), k, indent);
        assert(values_text(vs, k, indent) == t0 + t1);
        let mid = a + t0.len();
        assert(text_at(s, a, t0)) by {
            assert(s.subrange(a, mid) =~= t0) by {
                assert forall|i: int| 0 <= i < t0.len() implies s.subrange(a, mid)[i] == t0[i] by {
                    lemma_text_at(s, a, t0 + t1, i);
                }
            }
        }
        assert(text_at(s, mid, t1)) by {
            assert(s.subrange(mid, mid + t1.len()) =~= t1) by {
                assert forall|i: int| 0 <= i < t1.len() implies s.subrange(mid, mid + t1.len())[i] == t1[i] by {
                    lemma_text_at(s, a, t0 + t1, t0.len() + i);
                }
            }
        }
        lemma_values(s, p, a, k, dl, indent, acc, doc);
        let r1 = choose|r1: Pos|
            p.at <= r1.at <= mid && all_ws(s, r1.at, mid) && parse_seq(s, p, acc, doc) == parse_seq(
                s,
                r1,
                fold_values(acc, k, dl),
                doc,
            );
        lemma_value(s, r1, mid, k, vs.last(), indent, fold_values(acc, k, dl), doc);
        let r2 = choose|r2: Pos|
            r1.at <= r2.at <= mid + t1.len() && all_ws(s, r2.at, mid + t1.len()) && parse_seq(
                s,
                r1,
                fold_values(acc, k, dl),
                doc,
            ) == parse_seq(s, r2, kv_insert(fold_values(acc, k, dl), k, vs.last()), doc);
        assert(parse_seq(s, p, acc, doc) == parse_seq(s, r2, fold_values(acc, k, vs), doc));
    }
}

/// Reading the entries of a block, in order.
proof fn lemma_entries(s: Seq<char>, p: Pos, a: int, m: KvMap, indent: nat, acc: KvMap, doc: bool)
    requires
        0 <= p.at <= a,
        all_ws(s, p.at, a),
        text_at(s, a, entries_text(m, indent)),
        wf_entries(m),
    ensures
        exists|r: Pos|
            p.at <= r.at <= a + entries_text(m, indent).len() && all_ws(s, r.at, a + entries_text(m, indent).len())
                && parse_seq(s, p, acc, doc) == parse_seq(s, r, fold_entries(acc, m), doc),
    decreases m, 1nat,
{
    if m.len() == 0 {
        assert(parse_seq(s, p, acc, doc) == parse_seq(s, p, fold_entries(acc, m), doc));
    } else {
        let dl = m.drop_last();
        let t0 = entries_text(dl, indent);
        let t1 = values_text(m.last().1, m.last().0, indent);
        assert(entries_text(m, indent) == t0 + t1);
        let mid = a + t0.len();
        assert(text_at(s, a, t0)) by {
            assert(s.subrange(a, mid) =~= t0) by {
                assert forall|i: int| 0 <= i < t0.len() implies s.subrange(a, mid)[i] == t0[i] by {
                    lemma_text_at(s, a, t0 + t1, i);
                }
            }
        }
        assert(text_at(s, mid, t1)) by {
            assert(s.subrange(mid, mid + t1.len()) =~= t1) by {
                assert forall|i: int| 0 <= i < t1.len() implies s.subrange(mid, mid + t1.len())[i] == t1[i] by {
                    lemma_text_at(s, a, t0 + t1, t0.len() + i);
                }
            }
        }
        lemma_entries(s, p, a, dl, indent, acc, doc);
        let r1 = choose|r1: Pos|
            p.at <= r1.at <= mid && all_ws(s, r1.at, mid) && parse_seq(s, p, acc, doc) == parse_seq(
                s,
                r1,
                fold_entries(acc, dl),
                doc,
            );
        lemma_values(s, r1, mid, m.last().0, m.last().1, indent, fold_entries(acc, dl), doc);
        let r2 = choose|r2: Pos|
            r1.at <= r2.at <= mid + t1.len() && all_ws(s, r2.at, mid + t1.len()) && parse_seq(
                s,
                r1,
                fold_entries(acc, dl),
                doc,
            ) == parse_seq(s, r2, fold_values(fold_entries(acc, dl), m.last().0, m.last().1), doc);
        assert(parse_seq(s, p, acc, doc) == parse_seq(s, r2, fold_entries(acc, m), doc));
    }
}

/// What the writer writes of a document, the reader reads back: a block
/// whose keys and strings the text can carry (see [`wf_entries`]) is read
/// from its text as itself.
pub proof fn lemma_read_back(m: KvMap)
    requires
        wf_entries(m),
    ensures
        parse_kv(kv_text(KvTree::Obj(m))) == Ok::<KvTree, super::grammar::Fail>(KvTree::Obj(m)),
{
    let s = kv_text(KvTree::Obj(m));
    assert(s == entries_text(m, 0));
    assert(text_at(s, 0, s)) by {
        assert(s.subrange(0, s.len() as int) =~= s);
    }
    lemma_entries(s, start(), 0, m, 0, Seq::empty(), true);
    let r = choose|r: Pos|
        0 <= r.at <= s.len() && all_ws(s, r.at, s.len() as int) && parse_seq(s, start(), Seq::empty(), true) == parse_seq(
            s,
            r,
            fold_entries(Seq::empty(), m),
            true,
        );
    lemma_fold_entries(Seq::empty(), m);
    assert(Seq::<(Seq<char>, Seq<KvTree>)>::empty() + m =~= m);
    lemma_doc_end(s, r, m);
}

} // verus!
