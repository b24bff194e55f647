//! What the typed structures of a map file share: the lines they are
//! written as, and the walk over the nested blocks they are read from.

use vstd::prelude::*;
use crate::kv::ser::tabs;
use crate::text::{eq_ic, push_char};
use crate::vmf::block::{BlockTree, VmfBlock, blocks_tree, lemma_blocks_tree};

verus! {

broadcast use lemma_blocks_tree;

/// The line `"key" "value"` one tab deeper than `indent`.
pub open spec fn pair_line(indent: Seq<char>, key: Seq<char>, value: Seq<char>) -> Seq<char> {
    indent + seq!['\t', '"'] + key + seq!['"', ' ', '"'] + value + seq!['"', '\n']
}

/// The line `"key" "value"` one level deeper than `level`.
pub open spec fn line_pair(level: nat, key: Seq<char>, value: Seq<char>) -> Seq<char> {
    pair_line(tabs(level), key, value)
}

/// The lines that open a block `name` after `indent`.
pub open spec fn head_lines(indent: Seq<char>, name: Seq<char>) -> Seq<char> {
    indent + name + seq!['\n'] + indent + seq!['{', '\n']
}

/// The lines that open a block `name` at `level`.
pub open spec fn head_text(level: nat, name: Seq<char>) -> Seq<char> {
    head_lines(tabs(level), name)
}

/// The line that closes a block after `indent`.
pub open spec fn tail_line(indent: Seq<char>) -> Seq<char> {
    indent + seq!['}', '\n']
}

/// The line that closes a block at `level`.
pub open spec fn tail_text(level: nat) -> Seq<char> {
    tail_line(tabs(level))
}

/// Writes the lines that open a block `name` after `indent`.
pub fn write_head(out: &mut String, indent: &str, name: &str)
    ensures
        final(out)@ == old(out)@ + head_lines(indent@, name@),
{
    out.append(indent);
    out.append(name);
    push_char(out, '\n');
    out.append(indent);
    push_char(out, '{');
    push_char(out, '\n');
    assert(out@ =~= old(out)@ + head_lines(indent@, name@));
}

/// Writes the line `"key" "value"` one tab deeper than `indent`.
pub fn write_pair(out: &mut String, indent: &str, key: &str, value: &str)
    ensures
        final(out)@ == old(out)@ + pair_line(indent@, key@, value@),
{
    out.append(indent);
    push_char(out, '\t');
    push_char(out, '"');
    out.append(key);
    push_char(out, '"');
    push_char(out, ' ');
    push_char(out, '"');
    out.append(value);
    push_char(out, '"');
    push_char(out, '\n');
    assert(out@ =~= old(out)@ + pair_line(indent@, key@, value@));
}

/// Writes the line that closes a block after `indent`.
pub fn write_tail(out: &mut String, indent: &str)
    ensures
        final(out)@ == old(out)@ + tail_line(indent@),
{
    out.append(indent);
    push_char(out, '}');
    push_char(out, '\n');
    assert(out@ =~= old(out)@ + tail_line(indent@));
}

/// The items in reverse order, so that popping gives them in order.
pub fn into_queue<T>(v: Vec<T>) -> (q: Vec<T>)
    ensures
        q@ == v@.reverse(),
{
    let ghost v0 = v@;
    let mut v = v;
    let mut q: Vec<T> = Vec::new();
    assert(v0.subrange(v0.len() as int, v0.len() as int).reverse() =~= q@);
    while v.len() > 0
        invariant
            v@ == v0.take(v@.len() as int),
            q@ == v0.subrange(v@.len() as int, v0.len() as int).reverse(),
            v@.len() <= v0.len(),
        decreases v@.len(),
    {
        let n = v.len();
        match v.pop() {
            Some(b) => {
                q.push(b);
                assert(v0.take(n - 1) =~= v@);
                assert(q@ =~= v0.subrange(n - 1, v0.len() as int).reverse());
            },
            None => {},
        }
    }
    assert(v0.subrange(0, v0.len() as int) =~= v0);
    q
}

/// Takes the next block of a queue made by [`into_queue`] from `v0`,
/// after `i` were taken.
pub(crate) fn next_block<T>(q: &mut Vec<T>, Ghost(v0): Ghost<Seq<T>>, Ghost(i): Ghost<int>) -> (b: T)
    requires
        0 <= i < v0.len(),
        old(q)@ == v0.skip(i).reverse(),
    ensures
        b == v0[i],
        final(q)@ == v0.skip(i + 1).reverse(),
{
    assert(q@.len() == v0.len() - i);
    let r = q.pop();
    assert(q@ =~= v0.skip(i + 1).reverse());
    r.unwrap()
}

/// Whether a block has the name `name`, without regard to ASCII case.
pub open spec fn named(b: BlockTree, name: Seq<char>) -> bool {
    eq_ic(b.name, name)
}

} // verus!
