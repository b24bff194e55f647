//! Displacements: the rows of per-vertex data of a displaced side, and the
//! `dispinfo` block that holds them.

use vstd::prelude::*;
use vstd::string::StrSliceExecFns;
use indexmap::IndexMap;
use crate::fs::gameinfo::{words_of, words_text};
use crate::kv::ser::tabs;
use crate::ordmap::{first_key, list_entries, put, str_entries, lmap_new, lmap_len, lmap_get_index, lmap_insert,
    smap_len, smap_get_index, smap_new, smap_insert};
use crate::text::{dec, dec_int, eq_ic, eq_ignore_ascii_case, i64_to_string, parse_int, parse_int_in, push_char,
    u64_to_string};
use crate::vmf::block::{BlockTree, Extras, VmfBlock, blocks_text, blocks_tree, lemma_blocks_tree, pairs_text,
    tab_string, next_indent, next_level};
use crate::vmf::common::{VmfSerializable, extras_view, opt_line_at, write_opt};
use crate::vmf::parse_ctx::{ParseCtx, join_with, texts};
use crate::vmf::typed::{head_lines, head_text, named, pair_line, tail_line, tail_text, write_head, write_pair,
    write_tail};
use crate::vmf::utils::{FieldValue, Pairs, To01String, bool_text, parse_or, parsed_parts, take_bool, take_opt_parse,
    take_parse, take_str, taken, at_path, entered, opt_parse_ctx, parse_or_ctx, str_ctx, unexpected_ctx,
    unexpected_msg};
use crate::vmf::parse_ctx::{CtxView, warned};

verus! {

broadcast use {lemma_blocks_tree, crate::vmf::utils::group_ctx_paths};

/// Rows of data of a displacement, such as normals, distances, offsets.
#[derive(Debug, PartialEq, Eq)]
pub struct DispRows {
    /// The rows of data, each represented as a string.
    pub rows: Vec<String>,
}

/// The index that a key `row<N>` names (`row` matched without regard to
/// ASCII case); none for other keys, and for an index with no successor.
pub open spec fn row_index(k: Seq<char>) -> Option<int> {
    if k.len() >= 3 && eq_ic(k.take(3), "row"@) {
        match parse_int(k.skip(3), false, 0, usize::MAX as int) {
            Some(i) => if i < usize::MAX {
                Some(i)
            } else {
                None
            },
            None => None,
        }
    } else {
        None
    }
}

/// The rows with `v` at `i`, empty rows added before it where the rows are
/// too few.
pub open spec fn set_row(rows: Seq<Seq<char>>, i: int, v: Seq<char>) -> Seq<Seq<char>> {
    if i >= rows.len() {
        rows + Seq::new((i - rows.len()) as nat, |j: int| Seq::<char>::empty()) + seq![v]
    } else {
        rows.update(i, v)
    }
}

/// The rows read from the pairs of a rows block, in order: each pair
/// `row<N>` puts its value at index `N`; other pairs are dropped.
pub open spec fn rows_of(kvs: Pairs) -> Seq<Seq<char>>
    decreases kvs.len(),
{
    if kvs.len() == 0 {
        Seq::empty()
    } else {
        let r = rows_of(kvs.drop_last());
        match row_index(kvs.last().0) {
            Some(i) => set_row(r, i, kvs.last().1),
            None => r,
        }
    }
}

/// The message of a pair of a rows block that is no row.
pub open spec fn dropped_msg(k: Seq<char>) -> Seq<char> {
    "unexpected key '"@ + k + "', dropped"@
}

/// The context after reading the pairs of a rows block: a warning for
/// each pair that is no row.
pub open spec fn rows_ctx(c: CtxView, kvs: Pairs) -> CtxView
    decreases kvs.len(),
{
    if kvs.len() == 0 {
        c
    } else {
        let c1 = rows_ctx(c, kvs.drop_last());
        match row_index(kvs.last().0) {
            Some(_) => c1,
            None => warned(c1, dropped_msg(kvs.last().0)),
        }
    }
}

/// The key of row `i`.
pub open spec fn row_key(i: nat) -> Seq<char> {
    "row"@ + dec(i)
}

/// The row lines of `rows` from index `from` on... up to `n`.
pub open spec fn row_lines(indent: Seq<char>, rows: Seq<Seq<char>>, n: nat) -> Seq<char>
    decreases n,
{
    if n == 0 {
        Seq::empty()
    } else {
        row_lines(indent, rows, (n - 1) as nat) + pair_line(indent, row_key((n - 1) as nat), rows[n - 1])
    }
}

/// The text of rows as a block `name` at `level`.
pub open spec fn rows_text(rows: Seq<Seq<char>>, level: nat, name: Seq<char>) -> Seq<char> {
    head_text(level, name) + row_lines(tabs(level), rows, rows.len()) + tail_text(level)
}

/// The pairs of the block that rows are converted into.
pub open spec fn rows_pairs(rows: Seq<Seq<char>>, n: nat) -> Pairs
    decreases n,
{
    if n == 0 {
        Seq::empty()
    } else {
        put(rows_pairs(rows, (n - 1) as nat), row_key((n - 1) as nat), rows[n - 1])
    }
}

/// Reads the index of a key `row<N>`.
fn read_row_index(k: &str) -> (r: Option<usize>)
    ensures
        match row_index(k@) {
            Some(i) => r == Some(i as usize),
            None => r is None,
        },
{
    let n = k.unicode_len();
    if n < 3 {
        return None;
    }
    let head = k.substring_char(0, 3);
    assert(head@ =~= k@.take(3));
    if !eq_ignore_ascii_case(head, "row") {
        return None;
    }
    let rest = k.substring_char(3, n);
    assert(rest@ =~= k@.skip(3));
    match parse_int_in(rest, false, 0, usize::MAX as i128) {
        Some(v) => if v < usize::MAX as i128 {
            Some(v as usize)
        } else {
            None
        },
        None => None,
    }
}

impl DispRows {
    /// No rows.
    pub fn new() -> (d: Self)
        ensures
            texts(d.rows@) == Seq::<Seq<char>>::empty(),
    {
        let d = DispRows { rows: Vec::new() };
        assert(texts(d.rows@) =~= Seq::<Seq<char>>::empty());
        d
    }

    /// Reads the rows of a rows block; pairs that are no row are dropped
    /// with a warning.
    pub fn from_block(block: VmfBlock, ctx: &mut ParseCtx) -> (d: Self)
        ensures
            texts(d.rows@) == rows_of(block@.kvs),
            final(ctx)@ == rows_ctx(old(ctx)@, block@.kvs),
            final(ctx)@.path == old(ctx)@.path,
    {
        let kv = &block.key_values;
        let ghost es = str_entries(*kv);
        let n = smap_len(kv);
        let mut rows: Vec<String> = Vec::new();
        let mut i: usize = 0;
        assert(es.take(0) =~= Seq::<(Seq<char>, Seq<char>)>::empty());
        assert(texts(rows@) =~= Seq::<Seq<char>>::empty());
        while i < n
            invariant
                i <= n,
                n == es.len(),
                es == str_entries(*kv),
                es == block@.kvs,
                texts(rows@) == rows_of(es.take(i as int)),
                ctx@ == rows_ctx(old(ctx)@, es.take(i as int)),
                ctx@.path == old(ctx)@.path,
            decreases n - i,
        {
            assert(es.take(i + 1).drop_last() =~= es.take(i as int));
            match smap_get_index(kv, i) {
                Some((key, value)) => {
                    match read_row_index(key.as_str()) {
                        Some(index) => {
                            let ghost r0 = texts(rows@);
                            let n0 = rows.len();
                            while rows.len() < index
                                invariant
                                    r0.len() == n0,
                                    n0 <= rows@.len(),
                                    rows@.len() <= index || rows@.len() == n0,
                                    texts(rows@) == r0 + Seq::new((rows@.len() - n0) as nat, |j: int| Seq::<char>::empty()),
                                decreases index - rows@.len(),
                            {
                                let ghost rv = texts(rows@);
                                let ghost len0 = rows@.len();
                                rows.push(String::new());
                                assert(texts(rows@) =~= rv.push(Seq::<char>::empty()));
                                assert(r0 + Seq::new((len0 + 1 - n0) as nat, |j: int| Seq::<char>::empty()) =~= (r0 + Seq::new(
                                    (len0 - n0) as nat,
                                    |j: int| Seq::<char>::empty(),
                                )).push(Seq::<char>::empty()));
                            }
                            if index < rows.len() {
                                let ghost rv = texts(rows@);
                                rows.set(index, value.clone());
                                assert(texts(rows@) =~= rv.update(index as int, value@));
                                proof {
                                    if index >= r0.len() {
                                        assert(false);
                                    }
                                    assert(rv =~= r0);
                                }
                            } else {
                                let ghost rv = texts(rows@);
                                rows.push(value.clone());
                                assert(texts(rows@) =~= rv.push(value@));
                                assert(texts(rows@) =~= set_row(r0, index as int, value@));
                            }
                        },
                        None => {
                            let mut m = String::new();
                            m.append("unexpected key '");
                            m.append(key.as_str());
                            m.append("', dropped");
                            assert(m@ =~= dropped_msg(key@));
                            ctx.warn(m.as_str());
                        },
                    }
                },
                None => {},
            }
            i = i + 1;
        }
        assert(es.take(n as int) =~= es);
        DispRows { rows }
    }

    /// Converts the rows into a block `name` with the pairs `row<N>`.
    pub fn into_vmf_block(self, name: &str) -> (b: VmfBlock)
        ensures
            b@ == (BlockTree {
                name: name@,
                kvs: rows_pairs(texts(self.rows@), self.rows@.len()),
                blocks: Seq::empty(),
            }),
    {
        let ghost rs = texts(self.rows@);
        let mut kv = smap_new();
        let mut i: usize = 0;
        while i < self.rows.len()
            invariant
                i <= self.rows@.len(),
                rs == texts(self.rows@),
                str_entries(kv) == rows_pairs(rs, i as nat),
            decreases self.rows.len() - i,
        {
            let mut k = String::new();
            k.append("row");
            let d = u64_to_string(i as u64);
            k.append(d.as_str());
            let _ = smap_insert(&mut kv, k, self.rows[i].clone());
            i = i + 1;
        }
        let b = VmfBlock { name: name.to_string(), key_values: kv, blocks: Vec::new() };
        assert(b@.blocks =~= Seq::<BlockTree>::empty());
        b
    }

    /// The text of the rows as a block `name` at `indent_level`.
    pub fn to_vmf_string(&self, indent_level: usize, name: &str) -> (output: String)
        ensures
            output@ == rows_text(texts(self.rows@), indent_level as nat, name@),
    {
        let indent = tab_string(indent_level);
        let ghost rs = texts(self.rows@);
        let mut output = String::new();
        write_head(&mut output, indent.as_str(), name);
        assert(output@ =~= head_text(indent_level as nat, name@));
        let ghost o0 = output@;
        let mut i: usize = 0;
        while i < self.rows.len()
            invariant
                i <= self.rows@.len(),
                rs == texts(self.rows@),
                indent@ == tabs(indent_level as nat),
                output@ == o0 + row_lines(indent@, rs, i as nat),
            decreases self.rows.len() - i,
        {
            let mut k = String::new();
            k.append("row");
            let d = u64_to_string(i as u64);
            k.append(d.as_str());
            write_pair(&mut output, indent.as_str(), k.as_str(), self.rows[i].as_str());
            i = i + 1;
        }
        write_tail(&mut output, indent.as_str());
        output
    }
}

/// Index of the first block named `name` (without regard to ASCII case),
/// or -1.
pub open spec fn first_named(bs: Seq<BlockTree>, name: Seq<char>) -> int
    decreases bs.len(),
{
    if bs.len() == 0 {
        -1
    } else if first_named(bs.drop_last(), name) >= 0 {
        first_named(bs.drop_last(), name)
    } else if named(bs.last(), name) {
        bs.len() - 1
    } else {
        -1
    }
}

pub proof fn lemma_first_named(bs: Seq<BlockTree>, name: Seq<char>, i: int)
    requires
        0 <= i <= bs.len(),
        forall|j: int| 0 <= j < i ==> !named(#[trigger] bs[j], name),
    ensures
        i < bs.len() && named(bs[i], name) ==> first_named(bs, name) == i,
        i == bs.len() ==> first_named(bs, name) == -1,
    decreases bs.len(),
{
    if bs.len() > 0 {
        if i < bs.len() {
            if i < bs.len() - 1 {
                lemma_first_named(bs.drop_last(), name, i);
            } else {
                lemma_first_named(bs.drop_last(), name, i);
            }
        } else {
            lemma_first_named(bs.drop_last(), name, i - 1);
        }
    }
}

/// Taking the first block named `name` out of `bs`.
pub open spec fn taken_block(bs: Seq<BlockTree>, name: Seq<char>) -> (Option<BlockTree>, Seq<BlockTree>) {
    let i = first_named(bs, name);
    if 0 <= i < bs.len() {
        (Some(bs[i]), bs.remove(i))
    } else {
        (None, bs)
    }
}

/// Finds a block by name (without regard to ASCII case) and removes it.
fn take_block(blocks: &mut Vec<VmfBlock>, name: &str) -> (r: Option<VmfBlock>)
    ensures
        match taken_block(blocks_tree(old(blocks)@), name@).0 {
            Some(b) => r is Some && r->0@ == b,
            None => r is None,
        },
        blocks_tree(final(blocks)@) == taken_block(blocks_tree(old(blocks)@), name@).1,
{
    let ghost bt = blocks_tree(blocks@);
    let mut i: usize = 0;
    while i < blocks.len()
        invariant
            i <= blocks@.len(),
            bt == blocks_tree(blocks@),
            blocks == old(blocks),
            forall|j: int| 0 <= j < i ==> !named(#[trigger] bt[j], name@),
        decreases blocks.len() - i,
    {
        if eq_ignore_ascii_case(blocks[i].name.as_str(), name) {
            proof {
                lemma_first_named(bt, name@, i as int);
            }
            let ghost b0 = blocks@;
            let b = blocks.remove(i);
            assert(blocks_tree(blocks@) =~= bt.remove(i as int)) by {
                assert forall|j: int| 0 <= j < blocks@.len() implies blocks_tree(blocks@)[j] == bt.remove(i as int)[j] by {
                    if j < i {
                        assert(blocks@[j] == b0[j]);
                    } else {
                        assert(blocks@[j] == b0[j + 1]);
                    }
                }
            }
            return Some(b);
        }
        i = i + 1;
    }
    proof {
        lemma_first_named(bt, name@, i as int);
    }
    None
}

/// The numbers that the words of a value stand for, in order; other words
/// are skipped.
pub open spec fn verts_of(value: Seq<char>) -> Seq<i32> {
    parsed_parts::<i32>(words_of(value))
}

/// The message of a word of allowed vertices that is no number.
pub open spec fn skip_msg(key: Seq<char>, w: Seq<char>) -> Seq<char> {
    "allowed_verts/"@ + key + ": skipping '"@ + w + "'"@
}

/// The context after reading the words `ws` of the allowed vertices under
/// `key`: a warning for each word that is no number.
pub open spec fn verts_ctx(c: CtxView, key: Seq<char>, ws: Seq<Seq<char>>) -> CtxView
    decreases ws.len(),
{
    if ws.len() == 0 {
        c
    } else {
        let c1 = verts_ctx(c, key, ws.drop_last());
        match <i32 as FieldValue>::parse_spec(ws.last()) {
            Some(_) => c1,
            None => warned(c1, skip_msg(key, ws.last())),
        }
    }
}

/// The context after reading the pairs of an `allowed_verts` block.
pub open spec fn allowed_ctx(c: CtxView, kvs: Pairs) -> CtxView
    decreases kvs.len(),
{
    if kvs.len() == 0 {
        c
    } else {
        verts_ctx(allowed_ctx(c, kvs.drop_last()), kvs.last().0, words_of(kvs.last().1))
    }
}

/// The allowed vertices read from the pairs of an `allowed_verts` block.
pub open spec fn allowed_of(kvs: Pairs) -> Seq<(Seq<char>, Seq<i32>)>
    decreases kvs.len(),
{
    if kvs.len() == 0 {
        Seq::empty()
    } else {
        put(allowed_of(kvs.drop_last()), kvs.last().0, verts_of(kvs.last().1))
    }
}

/// The numbers of a list written with spaces between them.
pub open spec fn verts_text(vs: Seq<i32>) -> Seq<char> {
    join_with(vs.map_values(|v: i32| dec_int(v as int)), seq![' '])
}

/// The lines of the allowed vertices.
pub open spec fn allowed_lines(indent: Seq<char>, av: Seq<(Seq<char>, Seq<i32>)>) -> Seq<char>
    decreases av.len(),
{
    if av.len() == 0 {
        Seq::empty()
    } else {
        allowed_lines(indent, av.drop_last()) + pair_line(indent, av.last().0, verts_text(av.last().1))
    }
}

/// The text of the allowed vertices as a block at `level`.
pub open spec fn allowed_text(av: Seq<(Seq<char>, Seq<i32>)>, level: nat) -> Seq<char> {
    head_text(level, "allowed_verts"@) + allowed_lines(tabs(level), av) + tail_text(level)
}

/// Reads the numbers of a value, warning of the words that are none.
fn read_verts(key: &str, value: &str, ctx: &mut ParseCtx) -> (r: Vec<i32>)
    ensures
        r@ == verts_of(value@),
        final(ctx)@ == verts_ctx(old(ctx)@, key@, words_of(value@)),
        final(ctx)@.path == old(ctx)@.path,
{
    let words = words_text(value);
    let ghost ws = texts(words@);
    let mut out: Vec<i32> = Vec::new();
    let mut i: usize = 0;
    assert(ws.take(0) =~= Seq::<Seq<char>>::empty());
    while i < words.len()
        invariant
            i <= words@.len(),
            ws == texts(words@),
            ws == words_of(value@),
            out@ == parsed_parts::<i32>(ws.take(i as int)),
            ctx@ == verts_ctx(old(ctx)@, key@, ws.take(i as int)),
            ctx@.path == old(ctx)@.path,
        decreases words.len() - i,
    {
        assert(ws.take(i + 1).drop_last() =~= ws.take(i as int));
        match <i32 as FieldValue>::parse_text(words[i].as_str()) {
            Some(v) => {
                out.push(v);
            },
            None => {
                let mut m = String::new();
                m.append("allowed_verts/");
                m.append(key);
                m.append(": skipping '");
                m.append(words[i].as_str());
                m.append("'");
                assert(m@ =~= skip_msg(key@, ws[i as int]));
                ctx.warn(m.as_str());
            },
        }
        i = i + 1;
    }
    assert(ws.take(words@.len() as int) =~= ws);
    out
}

/// The numbers written with spaces between them.
pub(crate) fn verts_string(vs: &Vec<i32>) -> (s: String)
    ensures
        s@ == verts_text(vs@),
{
    let ghost ts = vs@.map_values(|v: i32| dec_int(v as int));
    let mut s = String::new();
    let mut i: usize = 0;
    assert(ts.take(0) =~= Seq::<Seq<char>>::empty());
    while i < vs.len()
        invariant
            i <= vs@.len(),
            ts == vs@.map_values(|v: i32| dec_int(v as int)),
            s@ == join_with(ts.take(i as int), seq![' ']),
        decreases vs.len() - i,
    {
        assert(ts.take(i + 1).drop_last() =~= ts.take(i as int));
        if i > 0 {
            push_char(&mut s, ' ');
        } else {
            assert(ts.take(1) =~= seq![ts[0]]);
        }
        let t = i64_to_string(vs[i] as i64);
        s.append(t.as_str());
        i = i + 1;
    }
    assert(ts.take(vs@.len() as int) =~= ts);
    s
}

/// The content of a [`DispInfo`].
pub struct DispInfoView {
    pub power: u8,
    pub start_position: Seq<char>,
    pub flags: Option<u32>,
    pub elevation: Seq<char>,
    pub subdiv: bool,
    pub normals: Seq<Seq<char>>,
    pub distances: Seq<Seq<char>>,
    pub offsets: Seq<Seq<char>>,
    pub offset_normals: Seq<Seq<char>>,
    pub alphas: Seq<Seq<char>>,
    pub triangle_tags: Seq<Seq<char>>,
    pub allowed_verts: Seq<(Seq<char>, Seq<i32>)>,
    pub extra: (Pairs, Seq<BlockTree>),
}

/// Represents the displacement information of a side. The elevation, a
/// floating-point number, is kept as the text written in the file.
#[derive(Debug, PartialEq)]
pub struct DispInfo {
    /// The power of the displacement map (2, 3, or 4).
    pub power: u8,
    /// The starting position of the displacement.
    pub start_position: String,
    /// Flags for the displacement.
    pub flags: Option<u32>,
    /// The elevation of the displacement, as written.
    pub elevation: String,
    /// Whether the displacement is subdivided.
    pub subdiv: bool,
    pub normals: DispRows,
    pub distances: DispRows,
    pub offsets: DispRows,
    pub offset_normals: DispRows,
    pub alphas: DispRows,
    pub triangle_tags: DispRows,
    /// The allowed vertices for the displacement.
    pub allowed_verts: IndexMap<String, Vec<i32>>,
    /// Keys and blocks this struct does not model.
    pub extra: Extras,
}

impl View for DispInfo {
    type V = DispInfoView;

    open spec fn view(&self) -> DispInfoView {
        DispInfoView {
            power: self.power,
            start_position: self.start_position@,
            flags: self.flags,
            elevation: self.elevation@,
            subdiv: self.subdiv,
            normals: texts(self.normals.rows@),
            distances: texts(self.distances.rows@),
            offsets: texts(self.offsets.rows@),
            offset_normals: texts(self.offset_normals.rows@),
            alphas: texts(self.alphas.rows@),
            triangle_tags: texts(self.triangle_tags.rows@),
            allowed_verts: list_entries(self.allowed_verts),
            extra: extras_view(self.extra),
        }
    }
}

/// The rows of the first block named `name`, or none.
pub open spec fn rows_taken(bs: Seq<BlockTree>, name: Seq<char>) -> (Seq<Seq<char>>, Seq<BlockTree>) {
    let (b, rest) = taken_block(bs, name);
    (
        match b {
            Some(x) => rows_of(x.kvs),
            None => Seq::empty(),
        },
        rest,
    )
}

/// The message of a rows block that is missing.
pub open spec fn missing_block_msg(name: Seq<char>) -> Seq<char> {
    "missing '"@ + name + "' block, using an empty one"@
}

/// The context after taking the rows block `name` out of `bs`: its rows
/// are read within it, and its absence is warned of.
pub open spec fn rows_taken_ctx(c: CtxView, bs: Seq<BlockTree>, name: Seq<char>) -> CtxView {
    match taken_block(bs, name).0 {
        Some(x) => at_path(rows_ctx(entered(c, name), x.kvs), c.path),
        None => warned(c, missing_block_msg(name)),
    }
}

/// The context after taking the rows block `name` out of `bs` where it
/// may be missing.
pub open spec fn rows_quiet_ctx(c: CtxView, bs: Seq<BlockTree>, name: Seq<char>) -> CtxView {
    match taken_block(bs, name).0 {
        Some(x) => rows_ctx(c, x.kvs),
        None => c,
    }
}

/// The context after reading a `dispinfo` block: the warnings of its rows
/// blocks and allowed vertices, of its other blocks, and of its pairs.
#[verifier::opaque]
pub open spec fn dispinfo_ctx(c: CtxView, b: BlockTree) -> CtxView {
    let (_, b1) = rows_taken(b.blocks, "normals"@);
    let (_, b2) = rows_taken(b1, "distances"@);
    let (_, b3) = rows_taken(b2, "alphas"@);
    let (_, b4) = rows_taken(b3, "triangle_tags"@);
    let (av, b5) = taken_block(b4, "allowed_verts"@);
    let (_, b6) = rows_taken(b5, "offsets"@);
    let (_, b7) = rows_taken(b6, "offset_normals"@);
    let c1 = rows_taken_ctx(c, b.blocks, "normals"@);
    let c2 = rows_taken_ctx(c1, b1, "distances"@);
    let c3 = rows_taken_ctx(c2, b2, "alphas"@);
    let c4 = rows_taken_ctx(c3, b3, "triangle_tags"@);
    let c5 = match av {
        Some(x) => allowed_ctx(c4, x.kvs),
        None => c4,
    };
    let c6 = rows_quiet_ctx(c5, b5, "offsets"@);
    let c7 = rows_quiet_ctx(c6, b6, "offset_normals"@);
    let c8 = unexpected_ctx(c7, b7);
    let (power, k1) = taken(b.kvs, "power"@);
    let (start, k2) = taken(k1, "startposition"@);
    let (flags, k3) = taken(k2, "flags"@);
    let (elevation, k4) = taken(k3, "elevation"@);
    let (subdiv, _) = taken(k4, "subdiv"@);
    let c9 = parse_or_ctx(c8, "power"@, power, 3u8);
    let c10 = str_ctx(c9, "startposition"@, start, "[0 0 0]"@);
    let c11 = opt_parse_ctx::<u32>(c10, "flags"@, flags);
    let c12 = str_ctx(c11, "elevation"@, elevation, "0"@);
    str_ctx(c12, "subdiv"@, subdiv, bool_text(false))
}

/// The displacement read from a `dispinfo` block: the rows blocks taken by
/// name, the allowed vertices, then the power (3 where missing or
/// unreadable), start position, flags, elevation and subdivision flag; the
/// other pairs and blocks are kept.
#[verifier::opaque]
pub open spec fn dispinfo_of(b: BlockTree) -> DispInfoView {
    let (normals, b1) = rows_taken(b.blocks, "normals"@);
    let (distances, b2) = rows_taken(b1, "distances"@);
    let (alphas, b3) = rows_taken(b2, "alphas"@);
    let (triangle_tags, b4) = rows_taken(b3, "triangle_tags"@);
    let (av, b5) = taken_block(b4, "allowed_verts"@);
    let (offsets, b6) = rows_taken(b5, "offsets"@);
    let (offset_normals, b7) = rows_taken(b6, "offset_normals"@);
    let (power, k1) = taken(b.kvs, "power"@);
    let (start, k2) = taken(k1, "startposition"@);
    let (flags, k3) = taken(k2, "flags"@);
    let (elevation, k4) = taken(k3, "elevation"@);
    let (subdiv, k5) = taken(k4, "subdiv"@);
    DispInfoView {
        power: parse_or(power, 3u8),
        start_position: match start {
            Some(s) => s,
            None => "[0 0 0]"@,
        },
        flags: match flags {
            Some(f) => <u32 as FieldValue>::parse_spec(f),
            None => None,
        },
        elevation: match elevation {
            Some(e) => e,
            None => seq!['0'],
        },
        subdiv: match subdiv {
            Some(v) => v == seq!['1'],
            None => false,
        },
        normals,
        distances,
        offsets,
        offset_normals,
        alphas,
        triangle_tags,
        allowed_verts: match av {
            Some(x) => allowed_of(x.kvs),
            None => Seq::empty(),
        },
        extra: (k5, b7),
    }
}

/// The text of a displacement as a block at `level`.
#[verifier::opaque]
pub open spec fn dispinfo_text(d: DispInfoView, level: nat) -> Seq<char> {
    let inner = next_level(level);
    head_text(level, "dispinfo"@) + pair_line(tabs(level), "power"@, dec(d.power as nat)) + pair_line(
        tabs(level),
        "startposition"@,
        d.start_position,
    ) + opt_line_at(
        tabs(level),
        "flags"@,
        match d.flags {
            Some(f) => Some(dec(f as nat)),
            None => None,
        },
    ) + pair_line(tabs(level), "elevation"@, d.elevation) + pair_line(tabs(level), "subdiv"@, bool_text(d.subdiv))
        + pairs_text(tabs(inner), d.extra.0) + rows_text(d.normals, inner, "normals"@) + rows_text(
        d.distances,
        inner,
        "distances"@,
    ) + rows_text(d.offsets, inner, "offsets"@) + rows_text(d.offset_normals, inner, "offset_normals"@) + rows_text(
        d.alphas,
        inner,
        "alphas"@,
    ) + rows_text(d.triangle_tags, inner, "triangle_tags"@) + allowed_text(d.allowed_verts, inner) + blocks_text(
        d.extra.1,
        inner,
    ) + tail_text(level)
}

impl DispInfo {
    /// Takes the rows block `name`, or warns and gives empty rows.
    fn take_rows(blocks: &mut Vec<VmfBlock>, name: &str, ctx: &mut ParseCtx) -> (r: DispRows)
        ensures
            (texts(r.rows@), blocks_tree(final(blocks)@)) == rows_taken(blocks_tree(old(blocks)@), name@),
            final(ctx)@ == rows_taken_ctx(old(ctx)@, blocks_tree(old(blocks)@), name@),
            final(ctx)@.path == old(ctx)@.path,
    {
        match take_block(blocks, name) {
            Some(block) => {
                ctx.enter(name);
                let rows = DispRows::from_block(block, ctx);
                ctx.leave();
                assert(old(ctx)@.path.push(name@).drop_last() =~= old(ctx)@.path);
                rows
            },
            None => {
                let mut m = String::new();
                m.append("missing '");
                m.append(name);
                m.append("' block, using an empty one");
                assert(m@ =~= missing_block_msg(name@));
                ctx.warn(m.as_str());
                DispRows::new()
            },
        }
    }

    /// Takes the rows block `name`, or gives empty rows.
    fn take_rows_quiet(blocks: &mut Vec<VmfBlock>, name: &str, ctx: &mut ParseCtx) -> (r: DispRows)
        ensures
            (texts(r.rows@), blocks_tree(final(blocks)@)) == rows_taken(blocks_tree(old(blocks)@), name@),
            final(ctx)@ == rows_quiet_ctx(old(ctx)@, blocks_tree(old(blocks)@), name@),
            final(ctx)@.path == old(ctx)@.path,
    {
        match take_block(blocks, name) {
            Some(block) => DispRows::from_block(block, ctx),
            None => DispRows::new(),
        }
    }

    /// Reads the allowed vertices of an `allowed_verts` block.
    fn parse_allowed_verts(block: VmfBlock, ctx: &mut ParseCtx) -> (r: IndexMap<String, Vec<i32>>)
        ensures
            list_entries(r) == allowed_of(block@.kvs),
            final(ctx)@ == allowed_ctx(old(ctx)@, block@.kvs),
            final(ctx)@.path == old(ctx)@.path,
    {
        let kv = &block.key_values;
        let ghost es = str_entries(*kv);
        let n = smap_len(kv);
        let mut av = lmap_new();
        let mut i: usize = 0;
        assert(es.take(0) =~= Seq::<(Seq<char>, Seq<char>)>::empty());
        while i < n
            invariant
                i <= n,
                n == es.len(),
                es == str_entries(*kv),
                es == block@.kvs,
                list_entries(av) == allowed_of(es.take(i as int)),
                ctx@ == allowed_ctx(old(ctx)@, es.take(i as int)),
                ctx@.path == old(ctx)@.path,
            decreases n - i,
        {
            assert(es.take(i + 1).drop_last() =~= es.take(i as int));
            match smap_get_index(kv, i) {
                Some((key, value)) => {
                    let verts = read_verts(key.as_str(), value.as_str(), ctx);
                    let _ = lmap_insert(&mut av, key.clone(), verts);
                },
                None => {},
            }
            i = i + 1;
        }
        assert(es.take(n as int) =~= es);
        av
    }

    /// The text of the allowed vertices as a block at `indent_level`.
    fn allowed_verts_to_vmf_string(allowed_verts: &IndexMap<String, Vec<i32>>, indent_level: usize) -> (output: String)
        ensures
            output@ == allowed_text(list_entries(*allowed_verts), indent_level as nat),
    {
        let indent = tab_string(indent_level);
        let ghost av = list_entries(*allowed_verts);
        let mut output = String::new();
        write_head(&mut output, indent.as_str(), "allowed_verts");
        assert(output@ =~= head_text(indent_level as nat, "allowed_verts"@));
        let ghost o0 = output@;
        let n = lmap_len(allowed_verts);
        let mut i: usize = 0;
        assert(av.take(0) =~= Seq::<(Seq<char>, Seq<i32>)>::empty());
        while i < n
            invariant
                i <= n,
                n == av.len(),
                av == list_entries(*allowed_verts),
                indent@ == tabs(indent_level as nat),
                output@ == o0 + allowed_lines(indent@, av.take(i as int)),
            decreases n - i,
        {
            assert(av.take(i + 1).drop_last() =~= av.take(i as int));
            match lmap_get_index(allowed_verts, i) {
                Some((key, values)) => {
                    let t = verts_string(values);
                    write_pair(&mut output, indent.as_str(), key.as_str(), t.as_str());
                },
                None => {},
            }
            i = i + 1;
        }
        assert(av.take(n as int) =~= av);
        write_tail(&mut output, indent.as_str());
        output
    }

    /// Reads a `dispinfo` block.
    pub fn from_block(block: VmfBlock, ctx: &mut ParseCtx) -> (d: Self)
        ensures
            d@ == dispinfo_of(block@),
            final(ctx)@ == dispinfo_ctx(old(ctx)@, block@),
            final(ctx)@.path == old(ctx)@.path,
    {
        proof {
            reveal(dispinfo_of);
            reveal(dispinfo_ctx);
        }
        let ghost bv = block@;
        let VmfBlock { name: _, key_values, blocks } = block;
        let mut blocks = blocks;
        let normals = Self::take_rows(&mut blocks, "normals", ctx);
        let distances = Self::take_rows(&mut blocks, "distances", ctx);
        let alphas = Self::take_rows(&mut blocks, "alphas", ctx);
        let triangle_tags = Self::take_rows(&mut blocks, "triangle_tags", ctx);
        let allowed_verts = match take_block(&mut blocks, "allowed_verts") {
            Some(b) => Self::parse_allowed_verts(b, ctx),
            None => lmap_new(),
        };
        let offsets = Self::take_rows_quiet(&mut blocks, "offsets", ctx);
        let offset_normals = Self::take_rows_quiet(&mut blocks, "offset_normals", ctx);
        let ghost p0 = ctx@.path;
        let ghost c7 = ctx@;
        let ghost rest = blocks_tree(blocks@);
        let mut i: usize = 0;
        while i < blocks.len()
            invariant
                i <= blocks@.len(),
                rest == blocks_tree(blocks@),
                ctx@ == unexpected_ctx(c7, rest.take(i as int)),
                ctx@.path == p0,
            decreases blocks.len() - i,
        {
            assert(rest.take(i + 1).drop_last() =~= rest.take(i as int));
            let mut m = String::new();
            m.append("unexpected block '");
            m.append(blocks[i].name.as_str());
            m.append("', kept as-is");
            assert(m@ =~= unexpected_msg(rest[i as int].name));
            ctx.warn(m.as_str());
            i = i + 1;
        }
        assert(rest.take(blocks@.len() as int) =~= rest);
        let mut kv = key_values;
        let power = take_parse::<u8>(&mut kv, "power", 3, ctx);
        let start_position = take_str(&mut kv, "startposition", "[0 0 0]", ctx);
        let flags = take_opt_parse::<u32>(&mut kv, "flags", ctx);
        let elevation = take_str(&mut kv, "elevation", "0", ctx);
        let subdiv = take_bool(&mut kv, "subdiv", false, ctx);
        proof {
            reveal_strlit("0");
            assert("0"@ =~= seq!['0']);
        }
        DispInfo {
            power,
            start_position,
            flags,
            elevation,
            subdiv,
            normals,
            distances,
            offsets,
            offset_normals,
            alphas,
            triangle_tags,
            allowed_verts,
            extra: Extras { key_values: kv, blocks },
        }
    }
}

impl VmfSerializable for DispInfo {
    fn to_vmf_string(&self, indent_level: usize) -> (output: String)
        ensures
            output@ == dispinfo_text(self@, indent_level as nat),
    {
        proof {
            reveal(dispinfo_text);
        }
        let indent = tab_string(indent_level);
        let mut output = String::new();
        write_head(&mut output, indent.as_str(), "dispinfo");
        assert(output@ =~= head_text(indent_level as nat, "dispinfo"@));
        let p = u64_to_string(self.power as u64);
        write_pair(&mut output, indent.as_str(), "power", p.as_str());
        write_pair(&mut output, indent.as_str(), "startposition", self.start_position.as_str());
        let f = match self.flags {
            Some(x) => Some(u64_to_string(x as u64)),
            None => None,
        };
        write_opt(&mut output, indent.as_str(), "flags", &f);
        write_pair(&mut output, indent.as_str(), "elevation", self.elevation.as_str());
        let sd = self.subdiv.to_01_string();
        write_pair(&mut output, indent.as_str(), "subdiv", sd.as_str());
        let inner = next_indent(indent_level);
        self.extra.write_key_values(&mut output, inner);
        let t1 = self.normals.to_vmf_string(inner, "normals");
        output.append(t1.as_str());
        let t2 = self.distances.to_vmf_string(inner, "distances");
        output.append(t2.as_str());
        let t3 = self.offsets.to_vmf_string(inner, "offsets");
        output.append(t3.as_str());
        let t4 = self.offset_normals.to_vmf_string(inner, "offset_normals");
        output.append(t4.as_str());
        let t5 = self.alphas.to_vmf_string(inner, "alphas");
        output.append(t5.as_str());
        let t6 = self.triangle_tags.to_vmf_string(inner, "triangle_tags");
        output.append(t6.as_str());
        let t7 = Self::allowed_verts_to_vmf_string(&self.allowed_verts, inner);
        output.append(t7.as_str());
        self.extra.write_blocks(&mut output, inner);
        write_tail(&mut output, indent.as_str());
        output
    }
}

} // verus!
