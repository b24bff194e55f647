//! Blocks: the untyped form of every part of a map file.

use vstd::prelude::*;
use crate::vmf::parse_ctx::join_with;
use indexmap::IndexMap;
use crate::kv::ser::tabs;
use crate::ordmap::{str_entries, smap_len, smap_get_index, smap_new};
use crate::text::push_char;

verus! {

/// Separator that joins the values of a key written several times in a
/// block into one string.
pub const REPEATED_KEY_SEP: char = '\r';

/// A block of a map file: a name, its key-value pairs in order, and the
/// blocks nested in it.
#[derive(Debug, PartialEq, Eq)]
pub struct VmfBlock {
    /// The name of the block.
    pub name: String,
    /// The key-value pairs in the block.
    pub key_values: IndexMap<String, String>,
    /// The child blocks contained within this block.
    pub blocks: Vec<VmfBlock>,
}

/// The content of a [`VmfBlock`].
pub struct BlockTree {
    pub name: Seq<char>,
    pub kvs: Seq<(Seq<char>, Seq<char>)>,
    pub blocks: Seq<BlockTree>,
}

pub open spec fn block_tree(b: VmfBlock) -> BlockTree
    decreases b, 0nat,
{
    BlockTree { name: b.name@, kvs: str_entries(b.key_values), blocks: blocks_tree(b.blocks@) }
}

pub open spec fn blocks_tree(bs: Seq<VmfBlock>) -> Seq<BlockTree>
    decreases bs, bs.len(),
{
    if bs.len() == 0 {
        Seq::empty()
    } else {
        blocks_tree(bs.drop_last()).push(block_tree(bs.last()))
    }
}

pub broadcast proof fn lemma_blocks_tree(bs: Seq<VmfBlock>)
    ensures
        (#[trigger] blocks_tree(bs)).len() == bs.len(),
        forall|i: int| 0 <= i < bs.len() ==> blocks_tree(bs)[i] == block_tree(bs[i]),
    decreases bs.len(),
{
    if bs.len() > 0 {
        lemma_blocks_tree(bs.drop_last());
        assert forall|i: int| 0 <= i < bs.len() - 1 implies blocks_tree(bs)[i] == block_tree(bs[i]) by {
            assert(bs.drop_last()[i] == bs[i]);
        }
    }
}

impl View for VmfBlock {
    type V = BlockTree;

    open spec fn view(&self) -> BlockTree {
        block_tree(*self)
    }
}

/// Splitting a text at each `sep`, as `str::split` with a character does:
/// the finished pieces, and the piece being read.
pub open spec fn split_state(s: Seq<char>, sep: char) -> (Seq<Seq<char>>, Seq<char>)
    decreases s.len(),
{
    if s.len() == 0 {
        (Seq::empty(), Seq::empty())
    } else {
        let (done, cur) = split_state(s.drop_last(), sep);
        if s.last() == sep {
            (done.push(cur), Seq::empty())
        } else {
            (done, cur.push(s.last()))
        }
    }
}

/// The pieces of `s` between occurrences of `sep` (`str::split`).
pub open spec fn split(s: Seq<char>, sep: char) -> Seq<Seq<char>> {
    split_state(s, sep).0.push(split_state(s, sep).1)
}

/// The pieces of `s` between occurrences of `sep`, in order (`str::split`
/// with a character).
pub fn split_text(s: &str, sep: char) -> (r: Vec<String>)
    ensures
        r@.map_values(|p: String| p@) == split(s@, sep),
{
    let chars = crate::text::chars_of(s);
    let mut done: Vec<String> = Vec::new();
    let mut cur: Vec<char> = Vec::new();
    let mut i: usize = 0;
    assert(chars@.take(0) =~= Seq::<char>::empty());
    assert(done@.map_values(|p: String| p@) =~= Seq::<Seq<char>>::empty());
    while i < chars.len()
        invariant
            i <= chars@.len(),
            chars@ == s@,
            cur@ == split_state(chars@.take(i as int), sep).1,
            done@.map_values(|p: String| p@) == split_state(chars@.take(i as int), sep).0,
        decreases chars.len() - i,
    {
        assert(chars@.take(i + 1).drop_last() =~= chars@.take(i as int));
        if chars[i] == sep {
            let piece = crate::text::string_from_chars(cur.as_slice());
            let ghost d0 = done@;
            done.push(piece);
            assert(done@.map_values(|p: String| p@) =~= d0.map_values(|p: String| p@).push(piece@));
            cur = Vec::new();
        } else {
            cur.push(chars[i]);
        }
        i = i + 1;
    }
    assert(chars@.take(chars@.len() as int) =~= chars@);
    let piece = crate::text::string_from_chars(cur.as_slice());
    let ghost d0 = done@;
    done.push(piece);
    assert(done@.map_values(|p: String| p@) =~= d0.map_values(|p: String| p@).push(piece@));
    done
}

/// `"key" "part"` lines, one per piece, each after `indent`.
pub open spec fn kv_lines(indent: Seq<char>, key: Seq<char>, parts: Seq<Seq<char>>) -> Seq<char>
    decreases parts.len(),
{
    if parts.len() == 0 {
        Seq::empty()
    } else {
        kv_lines(indent, key, parts.drop_last()) + indent + seq!['"'] + key + seq!['"', ' ', '"'] + parts.last()
            + seq!['"', '\n']
    }
}

/// The lines that write `value` under `key`: one per piece of `value`
/// between [`REPEATED_KEY_SEP`] separators.
pub open spec fn kv_text(indent: Seq<char>, key: Seq<char>, value: Seq<char>) -> Seq<char> {
    kv_lines(indent, key, split(value, REPEATED_KEY_SEP))
}

fn push_line(output: &mut String, indent: &str, key: &str, part: &[char])
    ensures
        final(output)@ == old(output)@ + indent@ + seq!['"'] + key@ + seq!['"', ' ', '"'] + part@ + seq!['"', '\n'],
{
    output.append(indent);
    push_char(output, '"');
    output.append(key);
    push_char(output, '"');
    push_char(output, ' ');
    push_char(output, '"');
    let mut i: usize = 0;
    let ghost o0 = output@;
    while i < part.len()
        invariant
            i <= part@.len(),
            output@ == o0 + part@.take(i as int),
        decreases part.len() - i,
    {
        push_char(output, part[i]);
        assert(part@.take(i + 1) =~= part@.take(i as int).push(part@[i as int]));
        i = i + 1;
    }
    assert(part@.take(part@.len() as int) =~= part@);
    push_char(output, '"');
    push_char(output, '\n');
    assert(output@ =~= old(output)@ + indent@ + seq!['"'] + key@ + seq!['"', ' ', '"'] + part@ + seq!['"', '\n']);
}

/// Writes key-value pairs, expanding values joined by [`REPEATED_KEY_SEP`]
/// back into separate lines.
pub fn write_key_value(output: &mut String, indent: &str, key: &str, value: &str)
    ensures
        final(output)@ == old(output)@ + kv_text(indent@, key@, value@),
{
    let chars = crate::text::chars_of(value);
    let mut cur: Vec<char> = Vec::new();
    let mut i: usize = 0;
    let ghost o0 = output@;
    assert(chars@.take(0) =~= Seq::<char>::empty());
    while i < chars.len()
        invariant
            i <= chars@.len(),
            chars@ == value@,
            cur@ == split_state(chars@.take(i as int), REPEATED_KEY_SEP).1,
            output@ == o0 + kv_lines(indent@, key@, split_state(chars@.take(i as int), REPEATED_KEY_SEP).0),
        decreases chars.len() - i,
    {
        assert(chars@.take(i + 1).drop_last() =~= chars@.take(i as int));
        if chars[i] == REPEATED_KEY_SEP {
            let ghost done = split_state(chars@.take(i as int), REPEATED_KEY_SEP).0;
            push_line(output, indent, key, cur.as_slice());
            assert(done.push(cur@).drop_last() =~= done);
            cur = Vec::new();
        } else {
            cur.push(chars[i]);
        }
        i = i + 1;
    }
    assert(chars@.take(chars@.len() as int) =~= chars@);
    let ghost done = split_state(value@, REPEATED_KEY_SEP).0;
    push_line(output, indent, key, cur.as_slice());
    assert(done.push(cur@).drop_last() =~= done);
}

/// Joins the values of a key written several times into one string with
/// [`REPEATED_KEY_SEP`] between them.
pub open spec fn joined(values: Seq<Seq<char>>) -> Seq<char>
    decreases values.len(),
{
    if values.len() == 0 {
        Seq::empty()
    } else if values.len() == 1 {
        values[0]
    } else {
        joined(values.drop_last()) + seq![REPEATED_KEY_SEP] + values.last()
    }
}

/// Joins multiple values for a repeated key into a single string using
/// [`REPEATED_KEY_SEP`].
pub fn join_repeated_key(values: &Vec<String>) -> (joined_text: String)
    ensures
        joined_text@ == joined(values@.map_values(|v: String| v@)),
{
    let mut joined_text = String::new();
    let mut i: usize = 0;
    let ghost vs = values@.map_values(|v: String| v@);
    while i < values.len()
        invariant
            i <= values@.len(),
            vs == values@.map_values(|v: String| v@),
            joined_text@ == joined(vs.take(i as int)),
        decreases values.len() - i,
    {
        assert(vs.take(i + 1).drop_last() =~= vs.take(i as int));
        if i > 0 {
            push_char(&mut joined_text, REPEATED_KEY_SEP);
        } else {
            assert(vs.take(1) =~= seq![vs[0]]);
        }
        joined_text.append(values[i].as_str());
        i = i + 1;
    }
    assert(vs.take(values@.len() as int) =~= vs);
    joined_text
}

/// `n` tab characters (`"\t".repeat(n)`).
pub fn tab_string(n: usize) -> (s: String)
    ensures
        s@ == tabs(n as nat),
{
    let mut s = String::new();
    let mut i: usize = 0;
    while i < n
        invariant
            i <= n,
            s@ == tabs(i as nat),
        decreases n - i,
    {
        push_char(&mut s, '\t');
        assert(tabs(i as nat).push('\t') =~= tabs((i + 1) as nat));
        i = i + 1;
    }
    s
}

/// `x + 1`, or `usize::MAX` where that is larger.
pub open spec fn next_level(x: nat) -> nat {
    if x >= usize::MAX {
        usize::MAX as nat
    } else {
        x + 1
    }
}

pub fn next_indent(x: usize) -> (r: usize)
    ensures
        r == next_level(x as nat),
{
    if x == usize::MAX {
        usize::MAX
    } else {
        x + 1
    }
}

/// The key-value lines of a block's pairs at `indent`.
pub open spec fn pairs_text(indent: Seq<char>, kvs: Seq<(Seq<char>, Seq<char>)>) -> Seq<char>
    decreases kvs.len(),
{
    if kvs.len() == 0 {
        Seq::empty()
    } else {
        pairs_text(indent, kvs.drop_last()) + kv_text(indent, kvs.last().0, kvs.last().1)
    }
}

/// The text of a block at indentation `level`.
pub open spec fn block_text(b: BlockTree, level: nat) -> Seq<char>
    decreases b, 0nat,
{
    tabs(level) + b.name + seq!['\n'] + tabs(level) + seq!['{', '\n'] + pairs_text(tabs(level) + seq!['\t'], b.kvs)
        + blocks_text(b.blocks, next_level(level)) + tabs(level) + seq!['}', '\n']
}

/// The texts of blocks in order, all at indentation `level`.
pub open spec fn blocks_text(bs: Seq<BlockTree>, level: nat) -> Seq<char>
    decreases bs, 1nat,
{
    if bs.len() == 0 {
        Seq::empty()
    } else {
        blocks_text(bs.drop_last(), level) + block_text(bs.last(), level)
    }
}

/// Writes the pairs of `kv` at `indent`.
pub fn write_pairs(output: &mut String, indent: &str, kv: &IndexMap<String, String>)
    ensures
        final(output)@ == old(output)@ + pairs_text(indent@, str_entries(*kv)),
{
    let n = smap_len(kv);
    let ghost es = str_entries(*kv);
    let ghost o0 = output@;
    let mut i: usize = 0;
    assert(es.take(0) =~= Seq::<(Seq<char>, Seq<char>)>::empty());
    while i < n
        invariant
            i <= n,
            n == es.len(),
            es == str_entries(*kv),
            output@ == o0 + pairs_text(indent@, es.take(i as int)),
        decreases n - i,
    {
        match smap_get_index(kv, i) {
            Some((k, v)) => {
                write_key_value(output, indent, k.as_str(), v.as_str());
            },
            None => {},
        }
        assert(es.take(i + 1).drop_last() =~= es.take(i as int));
        i = i + 1;
    }
    assert(es.take(n as int) =~= es);
}

/// Writes `blocks` in order at indentation `level`.
pub fn write_blocks_at(output: &mut String, blocks: &Vec<VmfBlock>, level: usize)
    ensures
        final(output)@ == old(output)@ + blocks_text(blocks_tree(blocks@), level as nat),
    decreases blocks@, 1nat,
{
    broadcast use lemma_blocks_tree;

    let ghost o0 = output@;
    let mut i: usize = 0;
    assert(blocks_tree(blocks@.take(0)) =~= Seq::<BlockTree>::empty());
    while i < blocks.len()
        invariant
            i <= blocks@.len(),
            output@ == o0 + blocks_text(blocks_tree(blocks@.take(i as int)), level as nat),
        decreases blocks.len() - i,
    {
        proof {
            assert(decreases_to!(blocks@ => blocks@[i as int]));
        }
        let text = blocks[i].serialize(level);
        output.append(text.as_str());
        assert(blocks@.take(i + 1).drop_last() =~= blocks@.take(i as int));
        assert(blocks_tree(blocks@.take(i + 1)).drop_last() =~= blocks_tree(blocks@.take(i as int)));
        i = i + 1;
    }
    assert(blocks@.take(blocks@.len() as int) =~= blocks@);
}

impl VmfBlock {
    /// Serializes the `VmfBlock` into a string with the specified indentation level.
    pub fn serialize(&self, indent_level: usize) -> (output: String)
        ensures
            output@ == block_text(self@, indent_level as nat),
        decreases *self, 0nat,
    {
        let indent = tab_string(indent_level);
        let mut output = String::new();
        output.append(indent.as_str());
        output.append(self.name.as_str());
        push_char(&mut output, '\n');
        output.append(indent.as_str());
        push_char(&mut output, '{');
        push_char(&mut output, '\n');
        let mut inner = indent.clone();
        push_char(&mut inner, '\t');
        assert(inner@ =~= tabs(indent_level as nat) + seq!['\t']);
        write_pairs(&mut output, inner.as_str(), &self.key_values);
        proof {
            assert(decreases_to!(*self => self.blocks));
        }
        write_blocks_at(&mut output, &self.blocks, next_indent(indent_level));
        output.append(indent.as_str());
        push_char(&mut output, '}');
        push_char(&mut output, '\n');
        assert(output@ =~= block_text(self@, indent_level as nat));
        output
    }
}

/// Preserves unrecognized keys and nested blocks during parsing for lossless round-tripping.
#[derive(Debug, PartialEq, Eq)]
pub struct Extras {
    /// Keys that are not mapped to typed struct fields.
    pub key_values: IndexMap<String, String>,
    /// Nested blocks that are not mapped to typed struct fields.
    pub blocks: Vec<VmfBlock>,
}

impl Extras {
    /// No unmodelled keys or blocks.
    pub fn new() -> (e: Self)
        ensures
            str_entries(e.key_values).len() == 0,
            e.blocks@.len() == 0,
    {
        Extras { key_values: smap_new(), blocks: Vec::new() }
    }

    pub fn is_empty(&self) -> (r: bool)
        ensures
            r == (str_entries(self.key_values).len() == 0 && self.blocks@.len() == 0),
    {
        smap_len(&self.key_values) == 0 && self.blocks.len() == 0
    }

    /// Serializes unrecognized key-value pairs at the specified indentation level.
    pub fn write_key_values(&self, output: &mut String, indent_level: usize)
        ensures
            final(output)@ == old(output)@ + pairs_text(tabs(indent_level as nat), str_entries(self.key_values)),
    {
        let indent = tab_string(indent_level);
        write_pairs(output, indent.as_str(), &self.key_values);
    }

    /// Serializes unrecognized blocks at the specified indentation level.
    pub fn write_blocks(&self, output: &mut String, indent_level: usize)
        ensures
            final(output)@ == old(output)@ + blocks_text(blocks_tree(self.blocks@), indent_level as nat),
    {
        write_blocks_at(output, &self.blocks, indent_level);
    }
}

impl Default for Extras {
    /// No unmodelled keys or blocks.
    fn default() -> (e: Self)
        ensures
            str_entries(e.key_values).len() == 0,
            e.blocks@.len() == 0,
    {
        Extras::new()
    }
}

/// Reading on past text without the separator only extends the piece
/// being read.
pub proof fn lemma_split_state_plain(x: Seq<char>, y: Seq<char>, sep: char)
    requires
        !y.contains(sep),
    ensures
        split_state(x + y, sep) == (split_state(x, sep).0, split_state(x, sep).1 + y),
    decreases y.len(),
{
    if y.len() == 0 {
        assert(x + y =~= x);
        assert(split_state(x, sep).1 + y =~= split_state(x, sep).1);
    } else {
        let yl = y.drop_last();
        assert(!yl.contains(sep)) by {
            if yl.contains(sep) {
                let k = choose|k: int| 0 <= k < yl.len() && yl[k] == sep;
                assert(y[k] == sep);
            }
        }
        lemma_split_state_plain(x, yl, sep);
        assert((x + y).drop_last() =~= x + yl);
        assert((x + y).last() == y.last());
        assert(y.last() != sep) by {
            assert(y[y.len() - 1] == y.last());
        }
        assert((split_state(x, sep).1 + yl).push(y.last()) =~= split_state(x, sep).1 + y);
    }
}

/// Splitting pieces joined with a separator that none of them holds gives
/// the pieces back.
pub proof fn lemma_split_join(ps: Seq<Seq<char>>, sep: char)
    requires
        ps.len() >= 1,
        forall|i: int| 0 <= i < ps.len() ==> !(#[trigger] ps[i]).contains(sep),
    ensures
        split(join_with(ps, seq![sep]), sep) == ps,
    decreases ps.len(),
{
    if ps.len() == 1 {
        lemma_split_state_plain(Seq::empty(), ps[0], sep);
        assert(Seq::<char>::empty() + ps[0] =~= ps[0]);
        assert(split_state(Seq::<char>::empty(), sep).1 + ps[0] =~= ps[0]);
        assert(seq![ps[0]] =~= ps);
    } else {
        let pre = ps.drop_last();
        lemma_split_join(pre, sep);
        let j = join_with(pre, seq![sep]);
        let js = j + seq![sep];
        assert(js.drop_last() =~= j);
        assert(js.last() == sep);
        lemma_split_state_plain(js, ps.last(), sep);
        assert(ps[ps.len() - 1] == ps.last());
        assert(join_with(ps, seq![sep]) =~= js + ps.last());
        assert(split_state(js, sep).1 + ps.last() =~= ps.last());
        assert(split(join_with(ps, seq![sep]), sep) =~= pre.push(ps.last()));
    }
}

/// Joining the pieces of a split with its separator gives the text back.
pub proof fn lemma_join_split(s: Seq<char>, sep: char)
    ensures
        join_with(split(s, sep), seq![sep]) == s,
    decreases s.len(),
{
    if s.len() == 0 {
        assert(split(s, sep) =~= seq![Seq::<char>::empty()]);
    } else {
        let t = s.drop_last();
        lemma_join_split(t, sep);
        let (d, c) = split_state(t, sep);
        if s.last() == sep {
            let ps = d.push(c).push(Seq::<char>::empty());
            assert(split(s, sep) =~= ps);
            assert(ps.drop_last() =~= d.push(c));
            assert(join_with(ps, seq![sep]) =~= t + seq![sep]);
            assert(t + seq![sep] =~= s);
        } else {
            assert(split(s, sep) =~= d.push(c.push(s.last())));
            if d.len() == 0 {
                assert(d.push(c.push(s.last())) =~= seq![c.push(s.last())]);
                assert(d.push(c) =~= seq![c]);
                assert(s =~= t.push(s.last()));
            } else {
                let ps = d.push(c.push(s.last()));
                assert(ps.drop_last() =~= d);
                assert(d.push(c).drop_last() =~= d);
                assert(join_with(ps, seq![sep]) =~= join_with(d, seq![sep]) + seq![sep] + c.push(s.last()));
                assert(s =~= t.push(s.last()));
            }
        }
    }
}

/// The pieces of a split hold no separator, and only characters of the
/// text.
pub proof fn lemma_split_pieces(s: Seq<char>, sep: char)
    ensures
        forall|i: int, j: int|
            0 <= i < split(s, sep).len() && 0 <= j < split(s, sep)[i].len() ==> #[trigger] split(s, sep)[i][j]
                != sep && s.contains(split(s, sep)[i][j]),
    decreases s.len(),
{
    if s.len() > 0 {
        let t = s.drop_last();
        lemma_split_pieces(t, sep);
        let (d, c) = split_state(t, sep);
        assert forall|i: int, j: int|
            0 <= i < split(s, sep).len() && 0 <= j < split(s, sep)[i].len() implies #[trigger] split(s, sep)[i][j]
            != sep && s.contains(split(s, sep)[i][j]) by {
            let x = split(s, sep)[i][j];
            if s.last() == sep {
                if i < d.len() {
                    assert(split(s, sep)[i] == split(t, sep)[i]);
                } else if i == d.len() {
                    assert(split(s, sep)[i] == split(t, sep)[i]);
                }
            } else {
                if i < d.len() {
                    assert(split(s, sep)[i] == split(t, sep)[i]);
                } else {
                    assert(split(s, sep)[i] == c.push(s.last()));
                    if j < c.len() {
                        assert(split(t, sep)[d.len() as int] == c);
                        assert(x == split(t, sep)[d.len() as int][j]);
                    } else {
                        assert(x == s[s.len() - 1]);
                    }
                }
            }
            if t.contains(x) {
                let k = choose|k: int| 0 <= k < t.len() && t[k] == x;
                assert(s[k] == x);
            }
        }
    }
}

/// Joining two non-empty runs of pieces: the joins of both with the
/// separator between them.
pub proof fn lemma_join_concat(a: Seq<Seq<char>>, b: Seq<Seq<char>>, sep: Seq<char>)
    requires
        a.len() >= 1,
        b.len() >= 1,
    ensures
        join_with(a + b, sep) == join_with(a, sep) + sep + join_with(b, sep),
    decreases b.len(),
{
    if b.len() == 1 {
        assert((a + b).drop_last() =~= a);
        assert((a + b).last() == b[0]);
    } else {
        lemma_join_concat(a, b.drop_last(), sep);
        assert((a + b).drop_last() =~= a + b.drop_last());
        assert((a + b).last() == b.last());
    }
}

} // verus!
