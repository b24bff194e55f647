//! Reading back what is written: typed map data written as a block reads
//! back from that block as itself.

use vstd::prelude::*;
use crate::ordmap::{first_key, lemma_first_key, put, put_all};
use crate::text::{dec, dec_int, eq_ic, lemma_dec_digits, lemma_dec_int_reads_back, lemma_dec_reads_back, parse_int};
use crate::vmf::block::{REPEATED_KEY_SEP, joined, lemma_split_join, split};
use crate::vmf::common::{EditorView, default_editor, editor_of};
use crate::vmf::convert::{allowed_pairs, dispinfo_block, entity_block, rows_block, solid_block, editor_block, id_texts, opt_dec, opt_dec_int, put_opt, side_block};
use crate::vmf::disp::{DispInfoView, allowed_of, dispinfo_of, first_named, lemma_first_named, row_index, row_key, rows_of,
    rows_pairs, rows_taken, set_row, taken_block, verts_of, verts_text};
use crate::vmf::block::BlockTree;
use crate::fs::gameinfo::{is_ws, words_of, words_state};
use crate::vmf::typed::named;
use crate::vmf::entities::{EntityParts, EntityView, conns_of_block, entity_blocks, entity_of, entity_step};
use crate::vmf::connection::{ConnView, grouped, lemma_key_values_round_trip, pairs_of_conns, writable};
use crate::vmf::world::{SideView, SolidParts, SolidView, side_blocks, side_of, solid_blocks, solid_of};
use crate::vmf::parse_ctx::join_with;
use crate::vmf::utils::{FieldValue, Pairs, bool_text, first_ic_key, lemma_bool_text_reads_back, lemma_first_ic_key,
    parsed_parts, taken};

verus! {

/// Whether no pair of `es` has a key that matches `k` without regard to
/// ASCII case.
pub open spec fn no_key_ic(es: Pairs, k: Seq<char>) -> bool {
    forall|j: int| 0 <= j < es.len() ==> !eq_ic(#[trigger] es[j].0, k)
}

/// Pairs that a block can carry beside the pairs that are read into typed
/// fields: none under one of the `known` keys exactly (writing it would
/// replace the typed value), and each key once.
pub open spec fn free_pairs(extra: Pairs, known: Seq<Seq<char>>) -> bool {
    &&& forall|i: int, j: int| 0 <= i < extra.len() && 0 <= j < known.len() ==> #[trigger] extra[i].0 != #[trigger] known[j]
    &&& forall|i: int, j: int| 0 <= i < j < extra.len() ==> #[trigger] extra[i].0 != #[trigger] extra[j].0
}

/// The keys that editor data is read from.
pub open spec fn editor_keys() -> Seq<Seq<char>> {
    seq!["color"@, "visgroupid"@, "groupid"@, "visgroupshown"@, "visgroupautoshown"@, "comments"@, "logicalpos"@]
}

/// Editor data that its block carries and reads back unchanged: its other
/// pairs are free of the keys it is read from, and none of them matches,
/// without regard to ASCII case, a key that is not written (no visgroups,
/// no group, no comments or no logical position).
pub open spec fn editor_writable(e: EditorView) -> bool {
    &&& free_pairs(e.extra.0, editor_keys())
    &&& e.visgroup_ids.len() == 0 ==> no_key_ic(e.extra.0, "visgroupid"@)
    &&& e.group_id is None ==> no_key_ic(e.extra.0, "groupid"@)
    &&& e.comments is None ==> no_key_ic(e.extra.0, "comments"@)
    &&& e.logical_pos is None ==> no_key_ic(e.extra.0, "logicalpos"@)
}

/// Putting a key that no pair has adds a pair at the end.
pub proof fn lemma_put_fresh<V>(es: Seq<(Seq<char>, V)>, k: Seq<char>, v: V)
    requires
        forall|j: int| 0 <= j < es.len() ==> #[trigger] es[j].0 != k,
    ensures
        put(es, k, v) == es.push((k, v)),
{
    lemma_first_key(es, k);
}

/// Putting pairs with fresh, distinct keys appends them.
proof fn lemma_put_all_fresh(es: Pairs, more: Pairs)
    requires
        forall|i: int, j: int| 0 <= i < es.len() && 0 <= j < more.len() ==> #[trigger] es[i].0 != #[trigger] more[j].0,
        forall|i: int, j: int| 0 <= i < j < more.len() ==> #[trigger] more[i].0 != #[trigger] more[j].0,
    ensures
        put_all(es, more) == es + more,
    decreases more.len(),
{
    if more.len() == 0 {
        assert(es + more =~= es);
    } else {
        let md = more.drop_last();
        assert forall|i: int, j: int| 0 <= i < es.len() && 0 <= j < md.len() implies #[trigger] es[i].0 != #[trigger] md[j].0 by {
            assert(md[j] == more[j]);
        }
        assert forall|i: int, j: int| 0 <= i < j < md.len() implies #[trigger] md[i].0 != #[trigger] md[j].0 by {
            assert(md[i] == more[i] && md[j] == more[j]);
        }
        lemma_put_all_fresh(es, md);
        let l = more.len() - 1;
        assert forall|j: int| 0 <= j < (es + md).len() implies #[trigger] (es + md)[j].0 != more.last().0 by {
            if j < es.len() {
                assert((es + md)[j] == es[j]);
                assert(es[j].0 != more[l].0);
            } else {
                assert((es + md)[j] == md[j - es.len()]);
                assert(more[j - es.len()].0 != more[l].0);
            }
        }
        lemma_put_fresh(es + md, more.last().0, more.last().1);
        assert((es + md).push(more.last()) =~= es + more);
    }
}

/// Taking a key that no pair matches changes nothing.
pub proof fn lemma_take_none(es: Pairs, k: Seq<char>)
    requires
        no_key_ic(es, k),
    ensures
        taken(es, k) == (None::<Seq<char>>, es),
{
    lemma_first_key(es, k);
    lemma_first_ic_key(es, k);
    if first_key(es, k) >= 0 {
        assert(eq_ic(es[first_key(es, k)].0, k));
    }
    if first_ic_key(es, k) >= 0 {
        assert(!eq_ic(es[first_ic_key(es, k)].0, k));
    }
}

/// `joined` is joining with the separator of repeated keys.
proof fn lemma_joined(values: Seq<Seq<char>>)
    ensures
        joined(values) == join_with(values, seq![REPEATED_KEY_SEP]),
    decreases values.len(),
{
    if values.len() > 1 {
        lemma_joined(values.drop_last());
    }
}

/// The text of a number has no separator of repeated keys.
proof fn lemma_dec_int_plain(x: int)
    ensures
        !dec_int(x).contains(REPEATED_KEY_SEP),
{
    let d = if x < 0 {
        dec((-x) as nat)
    } else {
        dec(x as nat)
    };
    if x < 0 {
        lemma_dec_digits((-x) as nat);
    } else {
        lemma_dec_digits(x as nat);
    }
    if dec_int(x).contains(REPEATED_KEY_SEP) {
        let i = choose|i: int| 0 <= i < dec_int(x).len() && dec_int(x)[i] == REPEATED_KEY_SEP;
        if x < 0 {
            assert(dec_int(x)[i] == (seq!['-'] + d)[i]);
            if i > 0 {
                assert(dec_int(x)[i] == d[i - 1]);
            }
        } else {
            assert(dec_int(x)[i] == d[i]);
        }
    }
}

/// Numbers written one per part read back as themselves.
proof fn lemma_ids_read_back(ids: Seq<i32>)
    ensures
        parsed_parts::<i32>(id_texts(ids)) == ids,
    decreases ids.len(),
{
    if ids.len() > 0 {
        let d = ids.drop_last();
        assert(id_texts(ids).drop_last() =~= id_texts(d));
        lemma_ids_read_back(d);
        lemma_dec_int_reads_back(ids.last() as int, i32::MIN as int, i32::MAX as int);
        assert(id_texts(ids).last() == dec_int(ids.last() as int));
        assert(<i32 as FieldValue>::parse_spec(id_texts(ids).last()) == Some(ids.last()));
        assert(d.push(ids.last()) =~= ids);
    }
}

/// The visgroups written in one `visgroupid` pair read back as themselves.
proof fn lemma_visgroups_read_back(ids: Seq<i32>)
    requires
        ids.len() > 0,
    ensures
        parsed_parts::<i32>(split(joined(id_texts(ids)), REPEATED_KEY_SEP)) == ids,
{
    let ts = id_texts(ids);
    lemma_joined(ts);
    assert forall|i: int| 0 <= i < ts.len() implies !(#[trigger] ts[i]).contains(REPEATED_KEY_SEP) by {
        lemma_dec_int_plain(ids[i] as int);
    }
    lemma_split_join(ts, REPEATED_KEY_SEP);
    lemma_ids_read_back(ids);
}


/// Concatenated pairs match a key only where one of the parts does.
pub proof fn lemma_no_key_concat(a: Pairs, b: Pairs, k: Seq<char>)
    requires
        no_key_ic(a, k),
        no_key_ic(b, k),
    ensures
        no_key_ic(a + b, k),
{
    assert forall|j: int| 0 <= j < (a + b).len() implies !eq_ic(#[trigger] (a + b)[j].0, k) by {
        if j < a.len() {
            assert((a + b)[j] == a[j]);
        } else {
            assert((a + b)[j] == b[j - a.len()]);
        }
    }
}

/// The pairs of the pieces, one piece after the other.
pub open spec fn flat(cs: Seq<Pairs>) -> Pairs
    decreases cs.len(),
{
    if cs.len() == 0 {
        Seq::empty()
    } else {
        flat(cs.drop_last()) + cs.last()
    }
}

/// Pieces of pairs, one per key: each holds at most one pair, under its key.
#[verifier::opaque]
pub open spec fn keyed(cs: Seq<Pairs>, ks: Seq<Seq<char>>) -> bool {
    &&& cs.len() == ks.len()
    &&& forall|i: int| 0 <= i < cs.len() ==> (#[trigger] cs[i]).len() <= 1
    &&& forall|i: int, j: int| 0 <= i < cs.len() && 0 <= j < cs[i].len() ==> (#[trigger] cs[i][j]).0 == ks[i]
}

/// Keys that differ from each other also without regard to ASCII case.
#[verifier::opaque]
pub open spec fn distinct_ic(ks: Seq<Seq<char>>) -> bool {
    forall|a: int, b: int| 0 <= a < ks.len() && 0 <= b < ks.len() && a != b ==> !eq_ic(#[trigger] ks[a], #[trigger] ks[b])
}

/// The value a piece holds, if any.
pub open spec fn piece_value(c: Pairs) -> Option<Seq<char>> {
    if c.len() > 0 {
        Some(c[0].1)
    } else {
        None
    }
}

/// An optional pair, as a piece.
pub open spec fn opt_pair(k: Seq<char>, v: Option<Seq<char>>) -> Pairs {
    match v {
        Some(x) => seq![(k, x)],
        None => Seq::empty(),
    }
}

proof fn lemma_flat_concat(a: Seq<Pairs>, b: Seq<Pairs>)
    ensures
        flat(a + b) == flat(a) + flat(b),
    decreases b.len(),
{
    if b.len() == 0 {
        assert(a + b =~= a);
        assert(flat(a) + flat(b) =~= flat(a));
    } else {
        lemma_flat_concat(a, b.drop_last());
        assert((a + b).drop_last() =~= a + b.drop_last());
        assert((a + b).last() == b.last());
        assert(flat(a) + flat(b.drop_last()) + b.last() =~= flat(a) + flat(b));
    }
}

/// The pieces before the `i`-th, the `i`-th, and the pieces after it.
proof fn lemma_flat_at(cs: Seq<Pairs>, i: int)
    requires
        0 <= i < cs.len(),
    ensures
        flat(cs) == flat(cs.take(i)) + cs[i] + flat(cs.skip(i + 1)),
        flat(cs.update(i, Seq::empty())) == flat(cs.take(i)) + flat(cs.skip(i + 1)),
        flat(cs.take(i + 1)) == flat(cs.take(i)) + cs[i],
{
    let t = cs.take(i);
    let r = cs.skip(i + 1);
    assert(cs =~= t + seq![cs[i]] + r);
    lemma_flat_concat(t + seq![cs[i]], r);
    lemma_flat_concat(t, seq![cs[i]]);
    assert(seq![cs[i]].drop_last() =~= Seq::<Pairs>::empty());
    assert(flat(seq![cs[i]].drop_last()) == Seq::<(Seq<char>, Seq<char>)>::empty());
    assert(Seq::<(Seq<char>, Seq<char>)>::empty() + cs[i] =~= cs[i]);
    assert(flat(seq![cs[i]]) =~= cs[i]);
    let u = cs.update(i, Seq::empty());
    assert(u =~= t + seq![Seq::<(Seq<char>, Seq<char>)>::empty()] + r);
    lemma_flat_concat(t + seq![Seq::<(Seq<char>, Seq<char>)>::empty()], r);
    lemma_flat_concat(t, seq![Seq::<(Seq<char>, Seq<char>)>::empty()]);
    let e1 = seq![Seq::<(Seq<char>, Seq<char>)>::empty()];
    assert(e1.drop_last() =~= Seq::<Pairs>::empty());
    assert(flat(e1) =~= Seq::<(Seq<char>, Seq<char>)>::empty());
    assert(flat(t) + flat(e1) =~= flat(t));
    assert(cs.take(i + 1).drop_last() =~= t);
}

/// No pair of the pieces matches a key that no piece matches.
proof fn lemma_flat_no_key(cs: Seq<Pairs>, k: Seq<char>)
    requires
        forall|m: int| 0 <= m < cs.len() ==> no_key_ic(#[trigger] cs[m], k),
    ensures
        no_key_ic(flat(cs), k),
    decreases cs.len(),
{
    if cs.len() > 0 {
        let d = cs.drop_last();
        assert forall|m: int| 0 <= m < d.len() implies no_key_ic(#[trigger] d[m], k) by {
            assert(d[m] == cs[m]);
        }
        lemma_flat_no_key(d, k);
        assert(no_key_ic(cs[cs.len() - 1], k));
        lemma_no_key_concat(flat(d), cs.last(), k);
    }
}

/// Whether no pair of `es` has exactly the key `k`.
pub open spec fn no_key_exact(es: Pairs, k: Seq<char>) -> bool {
    forall|j: int| 0 <= j < es.len() ==> #[trigger] es[j].0 != k
}

/// No pair of the pieces has a key that no piece has.
proof fn lemma_flat_no_key_exact(cs: Seq<Pairs>, k: Seq<char>)
    requires
        forall|m: int| 0 <= m < cs.len() ==> no_key_exact(#[trigger] cs[m], k),
    ensures
        no_key_exact(flat(cs), k),
    decreases cs.len(),
{
    if cs.len() > 0 {
        let d = cs.drop_last();
        assert forall|m: int| 0 <= m < d.len() implies no_key_exact(#[trigger] d[m], k) by {
            assert(d[m] == cs[m]);
        }
        lemma_flat_no_key_exact(d, k);
        assert(no_key_exact(cs[cs.len() - 1], k));
        let f = flat(d) + cs.last();
        assert forall|j: int| 0 <= j < f.len() implies #[trigger] f[j].0 != k by {
            if j < flat(d).len() {
                assert(f[j] == flat(d)[j]);
            } else {
                assert(f[j] == cs.last()[j - flat(d).len()]);
            }
        }
    }
}

/// Keyed pieces other than the `i`-th match no pair under the `i`-th key.
proof fn lemma_other_pieces(cs: Seq<Pairs>, ks: Seq<Seq<char>>, i: int)
    requires
        keyed(cs, ks),
        distinct_ic(ks),
        0 <= i < ks.len(),
    ensures
        no_key_ic(flat(cs.take(i)), ks[i]),
        no_key_ic(flat(cs.skip(i + 1)), ks[i]),
{
    reveal(keyed);
    reveal(distinct_ic);
    let t = cs.take(i);
    let r = cs.skip(i + 1);
    assert forall|m: int| 0 <= m < t.len() implies no_key_ic(#[trigger] t[m], ks[i]) by {
        assert forall|j: int| 0 <= j < t[m].len() implies !eq_ic(#[trigger] t[m][j].0, ks[i]) by {
            assert(t[m] == cs[m]);
            assert(cs[m][j].0 == ks[m]);
        }
    }
    assert forall|m: int| 0 <= m < r.len() implies no_key_ic(#[trigger] r[m], ks[i]) by {
        assert forall|j: int| 0 <= j < r[m].len() implies !eq_ic(#[trigger] r[m][j].0, ks[i]) by {
            assert(r[m] == cs[m + i + 1]);
            assert(cs[m + i + 1][j].0 == ks[m + i + 1]);
        }
    }
    lemma_flat_no_key(t, ks[i]);
    lemma_flat_no_key(r, ks[i]);
}

/// Pieces that hold no pair have no pairs.
pub proof fn lemma_flat_emptied(cs: Seq<Pairs>)
    requires
        forall|m: int| 0 <= m < cs.len() ==> (#[trigger] cs[m]).len() == 0,
    ensures
        flat(cs) == Seq::<(Seq<char>, Seq<char>)>::empty(),
    decreases cs.len(),
{
    if cs.len() > 0 {
        let d = cs.drop_last();
        assert forall|m: int| 0 <= m < d.len() implies (#[trigger] d[m]).len() == 0 by {
            assert(d[m] == cs[m]);
        }
        lemma_flat_emptied(d);
        assert(cs[cs.len() - 1].len() == 0);
        assert(flat(d) + cs.last() =~= Seq::<(Seq<char>, Seq<char>)>::empty());
    }
}

/// Taking a key that a pair bears exactly, with no pair before it bearing
/// it exactly.
proof fn lemma_take_unique(es: Pairs, k: Seq<char>, i: int)
    requires
        0 <= i < es.len(),
        es[i].0 == k,
        forall|j: int| 0 <= j < i ==> #[trigger] es[j].0 != k,
    ensures
        taken(es, k) == (Some(es[i].1), es.remove(i)),
{
    lemma_first_key(es, k);
}

/// Taking the key of a piece from the pairs of keyed pieces and free pairs
/// gives the piece's value and leaves the other pieces and the free pairs.
pub proof fn lemma_take_piece(cs: Seq<Pairs>, ks: Seq<Seq<char>>, x: Pairs, i: int)
    requires
        keyed(cs, ks),
        distinct_ic(ks),
        free_pairs(x, ks),
        0 <= i < ks.len(),
        cs[i].len() == 0 ==> no_key_ic(x, ks[i]),
    ensures
        taken(flat(cs) + x, ks[i]) == (piece_value(cs[i]), flat(cs.update(i, Seq::empty())) + x),
        keyed(cs.update(i, Seq::empty()), ks),
{
    reveal(keyed);
    lemma_flat_at(cs, i);
    lemma_other_pieces(cs, ks, i);
    let a = flat(cs.take(i));
    let b = flat(cs.skip(i + 1));
    if cs[i].len() == 0 {
        lemma_no_key_concat(b, x, ks[i]);
        lemma_no_key_concat(a, b + x, ks[i]);
        assert(flat(cs) + x =~= a + (b + x));
        assert(flat(cs.update(i, Seq::empty())) + x =~= a + (b + x));
        lemma_take_none(a + (b + x), ks[i]);
    } else {
        let es = flat(cs) + x;
        assert(es =~= a + cs[i] + (b + x));
        assert(es[a.len() as int] == cs[i][0]);
        assert(cs[i][0].0 == ks[i]);
        assert forall|j: int| 0 <= j < a.len() implies #[trigger] es[j].0 != ks[i] by {
            assert(es[j] == a[j]);
            assert(!eq_ic(a[j].0, ks[i]));
        }
        lemma_take_unique(es, ks[i], a.len() as int);
        assert(es.remove(a.len() as int) =~= flat(cs.update(i, Seq::empty())) + x);
    }
    let u = cs.update(i, Seq::empty());
    assert forall|m: int, j: int| 0 <= m < u.len() && 0 <= j < u[m].len() implies (#[trigger] u[m][j]).0 == ks[m] by {
        assert(u[m] == cs[m]);
    }
}

/// Putting the pair of the `i`-th piece after the pieces before it.
pub proof fn lemma_put_piece(cs: Seq<Pairs>, ks: Seq<Seq<char>>, i: int, v: Option<Seq<char>>)
    requires
        keyed(cs, ks),
        distinct_ic(ks),
        0 <= i < ks.len(),
        cs[i] == opt_pair(ks[i], v),
    ensures
        put_opt(flat(cs.take(i)), ks[i], v) == flat(cs.take(i + 1)),
        v matches Some(y) ==> put(flat(cs.take(i)), ks[i], y) == flat(cs.take(i + 1)),
{
    reveal(keyed);
    lemma_flat_at(cs, i);
    lemma_other_pieces(cs, ks, i);
    let a = flat(cs.take(i));
    match v {
        Some(y) => {
            assert forall|j: int| 0 <= j < a.len() implies #[trigger] a[j].0 != ks[i] by {
                assert(!eq_ic(a[j].0, ks[i]));
            }
            lemma_put_fresh(a, ks[i], y);
        },
        None => {
            assert(a + cs[i] =~= a);
        },
    }
}

/// Putting free pairs after keyed pieces appends them.
pub proof fn lemma_put_extra(cs: Seq<Pairs>, ks: Seq<Seq<char>>, x: Pairs)
    requires
        keyed(cs, ks),
        free_pairs(x, ks),
    ensures
        put_all(flat(cs), x) == flat(cs) + x,
{
    reveal(keyed);
    let f = flat(cs);
    assert forall|j: int| 0 <= j < x.len() implies no_key_exact(f, #[trigger] x[j].0) by {
        let k = x[j].0;
        assert forall|m: int| 0 <= m < cs.len() implies no_key_exact(#[trigger] cs[m], k) by {
            assert(x[j].0 != ks[m]);
            assert forall|t: int| 0 <= t < cs[m].len() implies #[trigger] cs[m][t].0 != k by {
                assert(cs[m][t].0 == ks[m]);
            }
        }
        lemma_flat_no_key_exact(cs, k);
    }
    assert forall|i: int, j: int| 0 <= i < f.len() && 0 <= j < x.len() implies #[trigger] f[i].0 != #[trigger] x[j].0 by {
        assert(no_key_exact(f, x[j].0));
    }
    lemma_put_all_fresh(f, x);
}

/// The keys editor data is read from differ from each other, also without
/// regard to ASCII case.
proof fn lemma_editor_keys_differ()
    ensures
        distinct_ic(editor_keys()),
{
    reveal(distinct_ic);
    reveal_strlit("color");
    reveal_strlit("visgroupid");
    reveal_strlit("groupid");
    reveal_strlit("visgroupshown");
    reveal_strlit("visgroupautoshown");
    reveal_strlit("comments");
    reveal_strlit("logicalpos");
    let ks = editor_keys();
    assert(ks[1][0] == 'v' && ks[6][0] == 'l');
    assert(crate::text::lower_ascii('v') != crate::text::lower_ascii('l'));
    assert(!eq_ic(ks[1], ks[6]));
    assert(!eq_ic(ks[6], ks[1]));
}

/// The pairs editor data is written as before its other pairs, one piece
/// per key it is read from.
pub open spec fn editor_pieces(e: EditorView) -> Seq<Pairs> {
    let ks = editor_keys();
    seq![
        seq![(ks[0], e.color)],
        opt_pair(ks[1], if e.visgroup_ids.len() > 0 {
            Some(joined(id_texts(e.visgroup_ids)))
        } else {
            None
        }),
        opt_pair(ks[2], opt_dec_int(e.group_id)),
        seq![(ks[3], bool_text(e.visgroup_shown))],
        seq![(ks[4], bool_text(e.visgroup_auto_shown))],
        opt_pair(ks[5], e.comments),
        opt_pair(ks[6], e.logical_pos),
    ]
}

/// The pairs of an editor block: the pieces, then its other pairs.
proof fn lemma_editor_written(e: EditorView)
    requires
        free_pairs(e.extra.0, editor_keys()),
    ensures
        keyed(editor_pieces(e), editor_keys()),
        editor_block(e).kvs == flat(editor_pieces(e)) + e.extra.0,
{
    reveal(keyed);
    lemma_editor_keys_differ();
    let ks = editor_keys();
    let cs = editor_pieces(e);
    assert(keyed(cs, ks));
    assert(cs.take(0) =~= Seq::<Pairs>::empty());
    lemma_put_piece(cs, ks, 0, Some(e.color));
    lemma_put_piece(cs, ks, 1, if e.visgroup_ids.len() > 0 {
        Some(joined(id_texts(e.visgroup_ids)))
    } else {
        None
    });
    lemma_put_piece(cs, ks, 2, opt_dec_int(e.group_id));
    lemma_put_piece(cs, ks, 3, Some(bool_text(e.visgroup_shown)));
    lemma_put_piece(cs, ks, 4, Some(bool_text(e.visgroup_auto_shown)));
    lemma_put_piece(cs, ks, 5, e.comments);
    lemma_put_piece(cs, ks, 6, e.logical_pos);
    assert(cs.take(7) =~= cs);
    lemma_put_extra(cs, ks, e.extra.0);
}

/// What reading editor data takes from the pairs of its block.
#[verifier::spinoff_prover]
#[verifier::rlimit(40)]
proof fn lemma_editor_read(e: EditorView)
    requires
        editor_writable(e),
    ensures
        ({
            let ks = editor_keys();
            let cs = editor_pieces(e);
            let x = e.extra.0;
            let c1 = cs.update(0, Seq::empty());
            let c2 = c1.update(1, Seq::empty());
            let c3 = c2.update(2, Seq::empty());
            let c4 = c3.update(3, Seq::empty());
            let c5 = c4.update(4, Seq::empty());
            let c6 = c5.update(5, Seq::empty());
            &&& taken(editor_block(e).kvs, "color"@) == (Some(e.color), flat(c1) + x)
            &&& taken(flat(c1) + x, "visgroupid"@) == (if e.visgroup_ids.len() > 0 {
                Some(joined(id_texts(e.visgroup_ids)))
            } else {
                None
            }, flat(c2) + x)
            &&& taken(flat(c2) + x, "groupid"@) == (opt_dec_int(e.group_id), flat(c3) + x)
            &&& taken(flat(c3) + x, "visgroupshown"@) == (Some(bool_text(e.visgroup_shown)), flat(c4) + x)
            &&& taken(flat(c4) + x, "visgroupautoshown"@) == (Some(bool_text(e.visgroup_auto_shown)), flat(c5) + x)
            &&& taken(flat(c5) + x, "comments"@) == (e.comments, flat(c6) + x)
            &&& taken(flat(c6) + x, "logicalpos"@) == (e.logical_pos, x)
        }),
{
    lemma_editor_written(e);
    lemma_editor_keys_differ();
    let ks = editor_keys();
    let cs = editor_pieces(e);
    let x = e.extra.0;
    let c1 = cs.update(0, Seq::empty());
    let c2 = c1.update(1, Seq::empty());
    let c3 = c2.update(2, Seq::empty());
    let c4 = c3.update(3, Seq::empty());
    let c5 = c4.update(4, Seq::empty());
    let c6 = c5.update(5, Seq::empty());
    let c7 = c6.update(6, Seq::empty());
    lemma_take_piece(cs, ks, x, 0);
    lemma_take_piece(c1, ks, x, 1);
    lemma_take_piece(c2, ks, x, 2);
    lemma_take_piece(c3, ks, x, 3);
    lemma_take_piece(c4, ks, x, 4);
    lemma_take_piece(c5, ks, x, 5);
    lemma_take_piece(c6, ks, x, 6);
    assert forall|m: int| 0 <= m < c7.len() implies (#[trigger] c7[m]).len() == 0 by {}
    lemma_flat_emptied(c7);
    assert(flat(c7) + x =~= x);
    assert(c1[1] == cs[1] && c2[2] == cs[2] && c3[3] == cs[3] && c4[4] == cs[4] && c5[5] == cs[5] && c6[6] == cs[6]);
}

/// Editor data written as an `editor` block reads back from it as itself,
/// where the block carries it unchanged (see [`editor_writable`]).
pub proof fn lemma_editor_trip(e: EditorView)
    requires
        editor_writable(e),
    ensures
        editor_of(editor_block(e)) == e,
{
    lemma_editor_read(e);
    if e.visgroup_ids.len() > 0 {
        lemma_visgroups_read_back(e.visgroup_ids);
    }
    match e.group_id {
        Some(g) => {
            lemma_dec_int_reads_back(g as int, i32::MIN as int, i32::MAX as int);
        },
        None => {},
    }
    lemma_bool_text_reads_back(e.visgroup_shown);
    lemma_bool_text_reads_back(e.visgroup_auto_shown);
    reveal(editor_of);
    let ev = editor_of(editor_block(e));
    assert(ev.color == e.color);
    assert(ev.visgroup_ids == e.visgroup_ids);
    assert(ev.group_id == e.group_id);
    assert(ev.visgroup_shown == e.visgroup_shown);
    assert(ev.visgroup_auto_shown == e.visgroup_auto_shown);
    assert(ev.comments == e.comments);
    assert(ev.logical_pos == e.logical_pos);
    assert(ev.extra == e.extra);
}

/// The keys a side is read from, in the order they are written.
pub open spec fn side_keys() -> Seq<Seq<char>> {
    seq![
        "id"@,
        "plane"@,
        "material"@,
        "uaxis"@,
        "vaxis"@,
        "lightmapscale"@,
        "smoothing_groups"@,
        "rotation"@,
        "flags"@,
    ]
}

proof fn lemma_side_keys_differ()
    ensures
        distinct_ic(side_keys()),
{
    reveal(distinct_ic);
    reveal_strlit("id");
    reveal_strlit("plane");
    reveal_strlit("material");
    reveal_strlit("uaxis");
    reveal_strlit("vaxis");
    reveal_strlit("lightmapscale");
    reveal_strlit("smoothing_groups");
    reveal_strlit("rotation");
    reveal_strlit("flags");
    let ks = side_keys();
    assert forall|a: int, b: int| 0 <= a < 9 && 0 <= b < 9 && a != b && ks[a].len() == ks[b].len() implies !eq_ic(
        #[trigger] ks[a],
        #[trigger] ks[b],
    ) by {
        assert(crate::text::lower_ascii(ks[a][0]) != crate::text::lower_ascii(ks[b][0]));
    }
}

/// The pairs a side is written as before its other pairs.
pub open spec fn side_pieces(s: SideView) -> Seq<Pairs> {
    let ks = side_keys();
    seq![
        seq![(ks[0], dec(s.id as nat))],
        seq![(ks[1], s.plane)],
        seq![(ks[2], s.material)],
        seq![(ks[3], s.u_axis)],
        seq![(ks[4], s.v_axis)],
        seq![(ks[5], dec(s.lightmap_scale as nat))],
        seq![(ks[6], dec_int(s.smoothing_groups as int))],
        opt_pair(ks[7], s.rotation),
        opt_pair(ks[8], opt_dec(s.flags)),
    ]
}

proof fn lemma_side_written(s: SideView)
    requires
        free_pairs(s.extra.0, side_keys()),
    ensures
        keyed(side_pieces(s), side_keys()),
        side_block(s).kvs == flat(side_pieces(s)) + s.extra.0,
{
    reveal(keyed);
    lemma_side_keys_differ();
    let ks = side_keys();
    let cs = side_pieces(s);
    assert(keyed(cs, ks));
    assert(cs.take(0) =~= Seq::<Pairs>::empty());
    lemma_put_piece(cs, ks, 0, Some(dec(s.id as nat)));
    lemma_put_piece(cs, ks, 1, Some(s.plane));
    lemma_put_piece(cs, ks, 2, Some(s.material));
    lemma_put_piece(cs, ks, 3, Some(s.u_axis));
    lemma_put_piece(cs, ks, 4, Some(s.v_axis));
    lemma_put_piece(cs, ks, 5, Some(dec(s.lightmap_scale as nat)));
    lemma_put_piece(cs, ks, 6, Some(dec_int(s.smoothing_groups as int)));
    lemma_put_piece(cs, ks, 7, s.rotation);
    lemma_put_piece(cs, ks, 8, opt_dec(s.flags));
    assert(cs.take(9) =~= cs);
    lemma_put_extra(cs, ks, s.extra.0);
}

/// What reading a side takes from the pairs of its block, in the order it
/// reads them.
#[verifier::spinoff_prover]
#[verifier::rlimit(40)]
proof fn lemma_side_read(s: SideView)
    requires
        free_pairs(s.extra.0, side_keys()),
        s.rotation is None ==> no_key_ic(s.extra.0, "rotation"@),
        s.flags is None ==> no_key_ic(s.extra.0, "flags"@),
    ensures
        ({
            let cs = side_pieces(s);
            let x = s.extra.0;
            let c1 = cs.update(0, Seq::empty());
            let c2 = c1.update(1, Seq::empty());
            let c3 = c2.update(2, Seq::empty());
            let c4 = c3.update(3, Seq::empty());
            let c5 = c4.update(4, Seq::empty());
            let c6 = c5.update(7, Seq::empty());
            let c7 = c6.update(5, Seq::empty());
            let c8 = c7.update(6, Seq::empty());
            &&& taken(side_block(s).kvs, "id"@) == (Some(dec(s.id as nat)), flat(c1) + x)
            &&& taken(flat(c1) + x, "plane"@) == (Some(s.plane), flat(c2) + x)
            &&& taken(flat(c2) + x, "material"@) == (Some(s.material), flat(c3) + x)
            &&& taken(flat(c3) + x, "uaxis"@) == (Some(s.u_axis), flat(c4) + x)
            &&& taken(flat(c4) + x, "vaxis"@) == (Some(s.v_axis), flat(c5) + x)
            &&& taken(flat(c5) + x, "rotation"@) == (s.rotation, flat(c6) + x)
            &&& taken(flat(c6) + x, "lightmapscale"@) == (Some(dec(s.lightmap_scale as nat)), flat(c7) + x)
            &&& taken(flat(c7) + x, "smoothing_groups"@) == (Some(dec_int(s.smoothing_groups as int)), flat(c8) + x)
            &&& taken(flat(c8) + x, "flags"@) == (opt_dec(s.flags), x)
        }),
{
    lemma_side_written(s);
    lemma_side_keys_differ();
    let ks = side_keys();
    let cs = side_pieces(s);
    let x = s.extra.0;
    let c1 = cs.update(0, Seq::empty());
    let c2 = c1.update(1, Seq::empty());
    let c3 = c2.update(2, Seq::empty());
    let c4 = c3.update(3, Seq::empty());
    let c5 = c4.update(4, Seq::empty());
    let c6 = c5.update(7, Seq::empty());
    let c7 = c6.update(5, Seq::empty());
    let c8 = c7.update(6, Seq::empty());
    let c9 = c8.update(8, Seq::empty());
    lemma_take_piece(cs, ks, x, 0);
    lemma_take_piece(c1, ks, x, 1);
    lemma_take_piece(c2, ks, x, 2);
    lemma_take_piece(c3, ks, x, 3);
    lemma_take_piece(c4, ks, x, 4);
    lemma_take_piece(c5, ks, x, 7);
    lemma_take_piece(c6, ks, x, 5);
    lemma_take_piece(c7, ks, x, 6);
    lemma_take_piece(c8, ks, x, 8);
    assert forall|m: int| 0 <= m < c9.len() implies (#[trigger] c9[m]).len() == 0 by {}
    lemma_flat_emptied(c9);
    assert(flat(c9) + x =~= x);
    assert(c1[1] == cs[1] && c2[2] == cs[2] && c3[3] == cs[3] && c4[4] == cs[4] && c5[7] == cs[7]);
    assert(c6[5] == cs[5] && c7[6] == cs[6] && c8[8] == cs[8]);
}

/// The blocks of a side: its displacement, if any, then its other blocks.
proof fn lemma_side_blocks(s: SideView)
    requires
        forall|i: int| 0 <= i < s.extra.1.len() ==> !named(#[trigger] s.extra.1[i], "dispinfo"@),
    ensures
        side_blocks(side_block(s).blocks) == (match s.dispinfo {
            Some(d) => Some(dispinfo_of(dispinfo_block(d))),
            None => None,
        }, s.extra.1),
{
    let head: Seq<crate::vmf::block::BlockTree> = match s.dispinfo {
        Some(d) => seq![dispinfo_block(d)],
        None => Seq::empty(),
    };
    assert(side_block(s).blocks == head + s.extra.1);
    lemma_side_blocks_plain(head, s.extra.1);
    match s.dispinfo {
        Some(d) => {
            assert(head.drop_last() =~= Seq::<crate::vmf::block::BlockTree>::empty());
            assert(named(head.last(), "dispinfo"@));
            assert(side_blocks(head.drop_last()) == (None::<DispInfoView>, Seq::<crate::vmf::block::BlockTree>::empty()));
            assert(side_blocks(head) == (Some(dispinfo_of(dispinfo_block(d))), Seq::<crate::vmf::block::BlockTree>::empty()));
            assert(Seq::<crate::vmf::block::BlockTree>::empty() + s.extra.1 =~= s.extra.1);
        },
        None => {
            assert(Seq::<crate::vmf::block::BlockTree>::empty() + s.extra.1 =~= s.extra.1);
        },
    }
}

/// Blocks not named `dispinfo` after others are kept as other blocks.
proof fn lemma_side_blocks_plain(a: Seq<crate::vmf::block::BlockTree>, b: Seq<crate::vmf::block::BlockTree>)
    requires
        forall|i: int| 0 <= i < b.len() ==> !named(#[trigger] b[i], "dispinfo"@),
    ensures
        side_blocks(a + b) == (side_blocks(a).0, side_blocks(a).1 + b),
    decreases b.len(),
{
    if b.len() == 0 {
        assert(a + b =~= a);
        assert(side_blocks(a).1 + b =~= side_blocks(a).1);
    } else {
        let bd = b.drop_last();
        assert forall|i: int| 0 <= i < bd.len() implies !named(#[trigger] bd[i], "dispinfo"@) by {
            assert(bd[i] == b[i]);
        }
        lemma_side_blocks_plain(a, bd);
        assert((a + b).drop_last() =~= a + bd);
        assert((a + b).last() == b[b.len() - 1]);
        assert(side_blocks(a).1 + bd + seq![b.last()] =~= side_blocks(a).1 + b);
    }
}

/// A side that its block carries and reads back unchanged: its other pairs
/// are free of the keys a side is read from, none of them matches, without
/// regard to ASCII case, a key that is not written (no rotation or no
/// flags), none of its other blocks is named `dispinfo`, and its
/// displacement, if any, is carried unchanged too.
pub open spec fn side_writable(s: SideView) -> bool {
    &&& free_pairs(s.extra.0, side_keys())
    &&& s.rotation is None ==> no_key_ic(s.extra.0, "rotation"@)
    &&& s.flags is None ==> no_key_ic(s.extra.0, "flags"@)
    &&& forall|i: int| 0 <= i < s.extra.1.len() ==> !named(#[trigger] s.extra.1[i], "dispinfo"@)
    &&& s.dispinfo matches Some(d) ==> disp_writable(d)
}

/// A side written as a `side` block reads back from it as itself, where the
/// block carries it unchanged (see [`side_writable`]).
pub proof fn lemma_side_trip(s: SideView)
    requires
        side_writable(s),
    ensures
        side_of(side_block(s)) == s,
{
    match s.dispinfo {
        Some(d) => {
            lemma_disp_trip(d);
        },
        None => {},
    }
    lemma_side_read(s);
    lemma_side_blocks(s);
    lemma_dec_reads_back(s.id as nat, u32::MAX as int);
    lemma_dec_reads_back(s.lightmap_scale as nat, u16::MAX as int);
    lemma_dec_int_reads_back(s.smoothing_groups as int, i32::MIN as int, i32::MAX as int);
    match s.flags {
        Some(f) => {
            lemma_dec_reads_back(f as nat, u32::MAX as int);
        },
        None => {},
    }
    reveal(side_of);
    let v = side_of(side_block(s));
    assert(v.id == s.id);
    assert(v.plane == s.plane);
    assert(v.material == s.material);
    assert(v.u_axis == s.u_axis);
    assert(v.v_axis == s.v_axis);
    assert(v.rotation == s.rotation);
    assert(v.lightmap_scale == s.lightmap_scale);
    assert(v.smoothing_groups == s.smoothing_groups);
    assert(v.flags == s.flags);
    assert(v.dispinfo == s.dispinfo);
    assert(v.extra == s.extra);
}

/// Reading words past a run of characters that are not white space adds
/// them to the word being read.
pub proof fn lemma_words_plain(x: Seq<char>, y: Seq<char>)
    requires
        forall|i: int| 0 <= i < y.len() ==> !is_ws(#[trigger] y[i]),
    ensures
        words_state(x + y) == (words_state(x).0, words_state(x).1 + y),
    decreases y.len(),
{
    if y.len() == 0 {
        assert(x + y =~= x);
        assert(words_state(x).1 + y =~= words_state(x).1);
    } else {
        let yd = y.drop_last();
        lemma_words_plain(x, yd);
        assert((x + y).drop_last() =~= x + yd);
        assert((x + y).last() == y[y.len() - 1]);
        assert(words_state(x).1 + yd + seq![y.last()] =~= words_state(x).1 + y);
    }
}

/// Words that are not empty and hold no white space, written with a space
/// between them, read back as themselves.
proof fn lemma_words_join(ws: Seq<Seq<char>>)
    requires
        ws.len() > 0,
        forall|i: int, j: int| 0 <= i < ws.len() && 0 <= j < ws[i].len() ==> !is_ws(#[trigger] ws[i][j]),
        forall|i: int| 0 <= i < ws.len() ==> (#[trigger] ws[i]).len() > 0,
    ensures
        words_state(join_with(ws, seq![' '])) == (ws.drop_last(), ws.last()),
    decreases ws.len(),
{
    let w = ws.last();
    assert(w == ws[ws.len() - 1]);
    assert forall|i: int| 0 <= i < w.len() implies !is_ws(#[trigger] w[i]) by {
        assert(w[i] == ws[ws.len() - 1][i]);
    }
    if ws.len() == 1 {
        lemma_words_plain(Seq::empty(), w);
        assert(Seq::<char>::empty() + w =~= w);
        assert(ws.drop_last() =~= Seq::<Seq<char>>::empty());
    } else {
        let d = ws.drop_last();
        assert forall|i: int, j: int| 0 <= i < d.len() && 0 <= j < d[i].len() implies !is_ws(#[trigger] d[i][j]) by {
            assert(d[i] == ws[i]);
        }
        assert forall|i: int| 0 <= i < d.len() implies (#[trigger] d[i]).len() > 0 by {
            assert(d[i] == ws[i]);
        }
        lemma_words_join(d);
        let j1 = join_with(d, seq![' ']);
        assert((j1 + seq![' ']).drop_last() =~= j1);
        assert(d.last() == ws[ws.len() - 2]);
        assert(words_state(j1 + seq![' ']) == (d, Seq::<char>::empty()));
        lemma_words_plain(j1 + seq![' '], w);
        assert(join_with(ws, seq![' ']) == j1 + seq![' '] + w);
        assert(Seq::<char>::empty() + w =~= w);
    }
}

/// A list of numbers written with spaces reads back as itself.
proof fn lemma_verts_read_back(vs: Seq<i32>)
    ensures
        verts_of(verts_text(vs)) == vs,
{
    let ws = id_texts(vs);
    assert(vs.map_values(|v: i32| dec_int(v as int)) =~= ws);
    if vs.len() == 0 {
        assert(verts_text(vs) == Seq::<char>::empty());
        assert(words_state(Seq::<char>::empty()) == (Seq::<Seq<char>>::empty(), Seq::<char>::empty()));
        assert(words_of(verts_text(vs)) =~= Seq::<Seq<char>>::empty());
        assert(id_texts(vs) =~= Seq::<Seq<char>>::empty());
        lemma_ids_read_back(vs);
    } else {
        assert forall|i: int, j: int| 0 <= i < ws.len() && 0 <= j < ws[i].len() implies !is_ws(#[trigger] ws[i][j]) by {
            lemma_dec_int_chars(vs[i] as int);
        }
        assert forall|i: int| 0 <= i < ws.len() implies (#[trigger] ws[i]).len() > 0 by {
            lemma_dec_int_chars(vs[i] as int);
        }
        lemma_words_join(ws);
        assert(ws.drop_last().push(ws.last()) =~= ws);
        lemma_ids_read_back(vs);
    }
}

/// The text of a number: not empty, a minus sign or digits.
proof fn lemma_dec_int_chars(x: int)
    ensures
        dec_int(x).len() > 0,
        forall|j: int| 0 <= j < dec_int(x).len() ==> !is_ws(#[trigger] dec_int(x)[j]),
{
    if x < 0 {
        let d = dec((-x) as nat);
        lemma_dec_digits((-x) as nat);
        assert forall|j: int| 0 <= j < dec_int(x).len() implies !is_ws(#[trigger] dec_int(x)[j]) by {
            if j > 0 {
                assert(dec_int(x)[j] == d[j - 1]);
                assert(crate::text::is_digit(d[j - 1]));
            }
        }
    } else {
        lemma_dec_digits(x as nat);
        assert forall|j: int| 0 <= j < dec_int(x).len() implies !is_ws(#[trigger] dec_int(x)[j]) by {
            assert(crate::text::is_digit(dec(x as nat)[j]));
        }
    }
}

/// Allowed vertices with distinct keys are written as one pair per key.
proof fn lemma_allowed_written(av: Seq<(Seq<char>, Seq<i32>)>)
    requires
        forall|i: int, j: int| 0 <= i < j < av.len() ==> #[trigger] av[i].0 != #[trigger] av[j].0,
    ensures
        allowed_pairs(av) == Seq::new(av.len(), |i: int| (av[i].0, verts_text(av[i].1))),
    decreases av.len(),
{
    if av.len() > 0 {
        let d = av.drop_last();
        assert forall|i: int, j: int| 0 <= i < j < d.len() implies #[trigger] d[i].0 != #[trigger] d[j].0 by {
            assert(d[i] == av[i] && d[j] == av[j]);
        }
        lemma_allowed_written(d);
        let p = allowed_pairs(d);
        assert forall|j: int| 0 <= j < p.len() implies #[trigger] p[j].0 != av.last().0 by {
            assert(p[j].0 == d[j].0);
            assert(d[j] == av[j]);
            assert(av[j].0 != av[av.len() - 1].0);
        }
        lemma_put_fresh(p, av.last().0, verts_text(av.last().1));
        assert(p.push((av.last().0, verts_text(av.last().1))) =~= Seq::new(
            av.len(),
            |i: int| (av[i].0, verts_text(av[i].1)),
        ));
    }
}

/// Pairs with distinct keys are read as one list of vertices per key.
proof fn lemma_allowed_read(p: Pairs)
    requires
        forall|i: int, j: int| 0 <= i < j < p.len() ==> #[trigger] p[i].0 != #[trigger] p[j].0,
    ensures
        allowed_of(p) == Seq::new(p.len(), |i: int| (p[i].0, verts_of(p[i].1))),
    decreases p.len(),
{
    if p.len() > 0 {
        let d = p.drop_last();
        assert forall|i: int, j: int| 0 <= i < j < d.len() implies #[trigger] d[i].0 != #[trigger] d[j].0 by {
            assert(d[i] == p[i] && d[j] == p[j]);
        }
        lemma_allowed_read(d);
        let a = allowed_of(d);
        assert forall|j: int| 0 <= j < a.len() implies #[trigger] a[j].0 != p.last().0 by {
            assert(a[j].0 == d[j].0);
            assert(d[j] == p[j]);
            assert(p[j].0 != p[p.len() - 1].0);
        }
        lemma_put_fresh(a, p.last().0, verts_of(p.last().1));
        assert(a.push((p.last().0, verts_of(p.last().1))) =~= Seq::new(p.len(), |i: int| (p[i].0, verts_of(p[i].1))));
    }
}

/// Allowed vertices with distinct keys read back as themselves.
proof fn lemma_allowed_trip(av: Seq<(Seq<char>, Seq<i32>)>)
    requires
        forall|i: int, j: int| 0 <= i < j < av.len() ==> #[trigger] av[i].0 != #[trigger] av[j].0,
    ensures
        allowed_of(allowed_pairs(av)) == av,
{
    lemma_allowed_written(av);
    let p = allowed_pairs(av);
    assert forall|i: int, j: int| 0 <= i < j < p.len() implies #[trigger] p[i].0 != #[trigger] p[j].0 by {
        assert(p[i].0 == av[i].0 && p[j].0 == av[j].0);
    }
    lemma_allowed_read(p);
    assert forall|i: int| 0 <= i < av.len() implies verts_of(verts_text(av[i].1)) == av[i].1 by {
        lemma_verts_read_back(av[i].1);
    }
    assert(allowed_of(p) =~= av);
}

/// The key of a row names that row alone.
proof fn lemma_row_key(i: nat, j: nat)
    ensures
        i < usize::MAX ==> row_index(row_key(i)) == Some(i as int),
        row_key(i) == row_key(j) ==> i == j,
{
    let k = row_key(i);
    lemma_dec_digits(i);
    lemma_dec_digits(j);
    reveal_strlit("row");
    assert(k.take(3) =~= "row"@);
    assert(k.skip(3) =~= dec(i));
    if i < usize::MAX {
        lemma_dec_reads_back(i, usize::MAX as int);
    }
    if row_key(i) == row_key(j) {
        assert(row_key(j).skip(3) =~= dec(j));
    }
}

/// The pairs of rows: one per row, under its key.
proof fn lemma_rows_written(rows: Seq<Seq<char>>, n: nat)
    requires
        n <= rows.len(),
    ensures
        rows_pairs(rows, n) == Seq::new(n, |i: int| (row_key(i as nat), rows[i])),
    decreases n,
{
    if n > 0 {
        lemma_rows_written(rows, (n - 1) as nat);
        let p = rows_pairs(rows, (n - 1) as nat);
        assert forall|j: int| 0 <= j < p.len() implies #[trigger] p[j].0 != row_key((n - 1) as nat) by {
            lemma_row_key(j as nat, (n - 1) as nat);
        }
        lemma_put_fresh(p, row_key((n - 1) as nat), rows[n - 1]);
        assert(p.push((row_key((n - 1) as nat), rows[n - 1])) =~= Seq::new(n, |i: int| (row_key(i as nat), rows[i])));
    }
}

/// Rows written one pair per row read back as the rows.
proof fn lemma_rows_read(rows: Seq<Seq<char>>, n: nat)
    requires
        n <= rows.len(),
        rows.len() <= usize::MAX,
    ensures
        rows_of(Seq::new(n, |i: int| (row_key(i as nat), rows[i]))) == rows.take(n as int),
    decreases n,
{
    let p = Seq::new(n, |i: int| (row_key(i as nat), rows[i]));
    if n > 0 {
        let d = (n - 1) as nat;
        assert(p.drop_last() =~= Seq::new(d, |i: int| (row_key(i as nat), rows[i])));
        lemma_rows_read(rows, d);
        lemma_row_key(d, d);
        assert(row_index(row_key(d)) == Some(d as int));
        assert(p.last() == (row_key(d), rows[d as int]));
        let r = rows.take(d as int);
        assert(set_row(r, d as int, rows[d as int]) =~= rows.take(n as int));
    }
}

/// Rows read back from the pairs they are written as.
proof fn lemma_rows_trip(rows: Seq<Seq<char>>)
    requires
        rows.len() <= usize::MAX,
    ensures
        rows_of(rows_pairs(rows, rows.len())) == rows,
{
    lemma_rows_written(rows, rows.len());
    lemma_rows_read(rows, rows.len());
    assert(rows.take(rows.len() as int) =~= rows);
}

/// Taking a block by a name that it bears exactly, with no block before it
/// bearing that name.
pub proof fn lemma_take_block_unique(bs: Seq<BlockTree>, name: Seq<char>, i: int)
    requires
        0 <= i < bs.len(),
        bs[i].name == name,
        forall|j: int| 0 <= j < i ==> !named(#[trigger] bs[j], name),
    ensures
        taken_block(bs, name) == (Some(bs[i]), bs.remove(i)),
{
    lemma_first_named(bs, name, i);
}

/// Taking by name one of the blocks that bear the given distinct names,
/// before any other blocks.
proof fn lemma_take_named(l: Seq<BlockTree>, names: Seq<Seq<char>>, x: Seq<BlockTree>, i: int)
    requires
        l.len() == names.len(),
        forall|j: int| 0 <= j < l.len() ==> (#[trigger] l[j]).name == names[j],
        distinct_ic(names),
        0 <= i < l.len(),
    ensures
        taken_block(l + x, names[i]) == (Some(l[i]), l.remove(i) + x),
        forall|j: int| 0 <= j < l.remove(i).len() ==> (#[trigger] l.remove(i)[j]).name == names.remove(i)[j],
        distinct_ic(names.remove(i)),
{
    reveal(distinct_ic);
    let bs = l + x;
    assert(bs[i] == l[i]);
    assert forall|j: int| 0 <= j < i implies !named(#[trigger] bs[j], names[i]) by {
        assert(bs[j] == l[j]);
        assert(!eq_ic(names[j], names[i]));
    }
    lemma_take_block_unique(bs, names[i], i);
    assert(bs.remove(i) =~= l.remove(i) + x);
    let n2 = names.remove(i);
    assert forall|a: int, b: int| 0 <= a < n2.len() && 0 <= b < n2.len() && a != b implies !eq_ic(#[trigger] n2[a], #[trigger] n2[b]) by {
        let a1 = if a < i { a } else { a + 1 };
        let b1 = if b < i { b } else { b + 1 };
        assert(n2[a] == names[a1] && n2[b] == names[b1]);
    }
    assert forall|j: int| 0 <= j < l.remove(i).len() implies (#[trigger] l.remove(i)[j]).name == n2[j] by {
        let j1 = if j < i { j } else { j + 1 };
        assert(l.remove(i)[j] == l[j1]);
    }
}

/// The names of the blocks a displacement is written with, in order.
pub open spec fn disp_names() -> Seq<Seq<char>> {
    seq!["normals"@, "distances"@, "offsets"@, "offset_normals"@, "alphas"@, "triangle_tags"@, "allowed_verts"@]
}

/// The keys a displacement is read from, in the order they are written.
pub open spec fn disp_keys() -> Seq<Seq<char>> {
    seq!["power"@, "startposition"@, "elevation"@, "subdiv"@, "flags"@]
}

proof fn lemma_disp_names_differ()
    ensures
        distinct_ic(disp_names()),
        distinct_ic(disp_keys()),
{
    reveal(distinct_ic);
    reveal_strlit("normals");
    reveal_strlit("distances");
    reveal_strlit("offsets");
    reveal_strlit("offset_normals");
    reveal_strlit("alphas");
    reveal_strlit("triangle_tags");
    reveal_strlit("allowed_verts");
    reveal_strlit("power");
    reveal_strlit("startposition");
    reveal_strlit("elevation");
    reveal_strlit("subdiv");
    reveal_strlit("flags");
    let ns = disp_names();
    assert forall|a: int, b: int| 0 <= a < 7 && 0 <= b < 7 && a != b && ns[a].len() == ns[b].len() implies !eq_ic(
        #[trigger] ns[a],
        #[trigger] ns[b],
    ) by {
        assert(crate::text::lower_ascii(ns[a][0]) != crate::text::lower_ascii(ns[b][0]));
    }
    let ks = disp_keys();
    assert forall|a: int, b: int| 0 <= a < 5 && 0 <= b < 5 && a != b && ks[a].len() == ks[b].len() implies !eq_ic(
        #[trigger] ks[a],
        #[trigger] ks[b],
    ) by {
        assert(crate::text::lower_ascii(ks[a][0]) != crate::text::lower_ascii(ks[b][0]));
    }
}

/// The blocks a displacement is written with, before its other blocks.
pub open spec fn disp_blocks(d: DispInfoView) -> Seq<BlockTree> {
    let ns = disp_names();
    seq![
        rows_block(ns[0], d.normals),
        rows_block(ns[1], d.distances),
        rows_block(ns[2], d.offsets),
        rows_block(ns[3], d.offset_normals),
        rows_block(ns[4], d.alphas),
        rows_block(ns[5], d.triangle_tags),
        BlockTree { name: ns[6], kvs: allowed_pairs(d.allowed_verts), blocks: Seq::empty() },
    ]
}

/// The blocks a displacement reads, in the order it reads them, and the
/// blocks it keeps.
#[verifier::opaque]
pub open spec fn disp_block_reads(bs: Seq<BlockTree>) -> (Seq<Seq<Seq<char>>>, Option<BlockTree>, Seq<BlockTree>) {
    let (normals, b1) = rows_taken(bs, "normals"@);
    let (distances, b2) = rows_taken(b1, "distances"@);
    let (alphas, b3) = rows_taken(b2, "alphas"@);
    let (triangle_tags, b4) = rows_taken(b3, "triangle_tags"@);
    let (av, b5) = taken_block(b4, "allowed_verts"@);
    let (offsets, b6) = rows_taken(b5, "offsets"@);
    let (offset_normals, b7) = rows_taken(b6, "offset_normals"@);
    (seq![normals, distances, alphas, triangle_tags, offsets, offset_normals], av, b7)
}

/// What reading a displacement takes from the blocks of its block.
#[verifier::spinoff_prover]
proof fn lemma_disp_blocks_read(d: DispInfoView)
    ensures
        ({
            let l0 = disp_blocks(d);
            disp_block_reads(dispinfo_block(d).blocks) == (
                seq![
                    rows_of(l0[0].kvs),
                    rows_of(l0[1].kvs),
                    rows_of(l0[4].kvs),
                    rows_of(l0[5].kvs),
                    rows_of(l0[2].kvs),
                    rows_of(l0[3].kvs),
                ],
                Some(l0[6]),
                d.extra.1,
            )
        }),
{
    reveal(disp_block_reads);
    lemma_disp_names_differ();
    let ns = disp_names();
    let l0 = disp_blocks(d);
    let x = d.extra.1;
    assert(dispinfo_block(d).blocks =~= l0 + x);
    assert forall|j: int| 0 <= j < l0.len() implies (#[trigger] l0[j]).name == ns[j] by {}
    let n1 = ns.remove(0);
    let l1 = l0.remove(0);
    lemma_take_named(l0, ns, x, 0);
    let n2 = n1.remove(0);
    let l2 = l1.remove(0);
    lemma_take_named(l1, n1, x, 0);
    let n3 = n2.remove(2);
    let l3 = l2.remove(2);
    lemma_take_named(l2, n2, x, 2);
    let n4 = n3.remove(2);
    let l4 = l3.remove(2);
    lemma_take_named(l3, n3, x, 2);
    let n5 = n4.remove(2);
    let l5 = l4.remove(2);
    lemma_take_named(l4, n4, x, 2);
    let n6 = n5.remove(0);
    let l6 = l5.remove(0);
    lemma_take_named(l5, n5, x, 0);
    lemma_take_named(l6, n6, x, 0);
    assert(l6.remove(0) =~= Seq::<BlockTree>::empty());
    assert(Seq::<BlockTree>::empty() + x =~= x);
    assert(n1[0] == "distances"@ && n2[2] == "alphas"@ && n3[2] == "triangle_tags"@);
    assert(n4[2] == "allowed_verts"@ && n5[0] == "offsets"@ && n6[0] == "offset_normals"@);
    assert(l1[0] == l0[1] && l2[2] == l0[4] && l3[2] == l0[5] && l4[2] == l0[6] && l5[0] == l0[2] && l6[0] == l0[3]);
    let bs = dispinfo_block(d).blocks;
    let r0 = rows_taken(bs, "normals"@);
    let r1 = rows_taken(r0.1, "distances"@);
    let r2 = rows_taken(r1.1, "alphas"@);
    let r3 = rows_taken(r2.1, "triangle_tags"@);
    let r4 = taken_block(r3.1, "allowed_verts"@);
    let r5 = rows_taken(r4.1, "offsets"@);
    let r6 = rows_taken(r5.1, "offset_normals"@);
    assert(r6.1 == x);
}

/// The pairs a displacement is written as before its other pairs.
pub open spec fn disp_pieces(d: DispInfoView) -> Seq<Pairs> {
    let ks = disp_keys();
    seq![
        seq![(ks[0], dec(d.power as nat))],
        seq![(ks[1], d.start_position)],
        seq![(ks[2], d.elevation)],
        seq![(ks[3], bool_text(d.subdiv))],
        opt_pair(ks[4], opt_dec(d.flags)),
    ]
}

/// What reading a displacement takes from the pairs of its block.
#[verifier::spinoff_prover]
proof fn lemma_disp_pairs_read(d: DispInfoView)
    requires
        free_pairs(d.extra.0, disp_keys()),
        d.flags is None ==> no_key_ic(d.extra.0, "flags"@),
    ensures
        ({
            let cs = disp_pieces(d);
            let x = d.extra.0;
            let c1 = cs.update(0, Seq::empty());
            let c2 = c1.update(1, Seq::empty());
            let c3 = c2.update(4, Seq::empty());
            let c4 = c3.update(2, Seq::empty());
            &&& taken(dispinfo_block(d).kvs, "power"@) == (Some(dec(d.power as nat)), flat(c1) + x)
            &&& taken(flat(c1) + x, "startposition"@) == (Some(d.start_position), flat(c2) + x)
            &&& taken(flat(c2) + x, "flags"@) == (opt_dec(d.flags), flat(c3) + x)
            &&& taken(flat(c3) + x, "elevation"@) == (Some(d.elevation), flat(c4) + x)
            &&& taken(flat(c4) + x, "subdiv"@) == (Some(bool_text(d.subdiv)), x)
        }),
{
    reveal(keyed);
    lemma_disp_names_differ();
    let ks = disp_keys();
    let cs = disp_pieces(d);
    let x = d.extra.0;
    assert(keyed(cs, ks));
    assert(cs.take(0) =~= Seq::<Pairs>::empty());
    lemma_put_piece(cs, ks, 0, Some(dec(d.power as nat)));
    lemma_put_piece(cs, ks, 1, Some(d.start_position));
    lemma_put_piece(cs, ks, 2, Some(d.elevation));
    lemma_put_piece(cs, ks, 3, Some(bool_text(d.subdiv)));
    lemma_put_piece(cs, ks, 4, opt_dec(d.flags));
    assert(cs.take(5) =~= cs);
    lemma_put_extra(cs, ks, x);
    assert(dispinfo_block(d).kvs == flat(cs) + x);
    let c1 = cs.update(0, Seq::empty());
    let c2 = c1.update(1, Seq::empty());
    let c3 = c2.update(4, Seq::empty());
    let c4 = c3.update(2, Seq::empty());
    let c5 = c4.update(3, Seq::empty());
    lemma_take_piece(cs, ks, x, 0);
    lemma_take_piece(c1, ks, x, 1);
    lemma_take_piece(c2, ks, x, 4);
    lemma_take_piece(c3, ks, x, 2);
    lemma_take_piece(c4, ks, x, 3);
    assert forall|m: int| 0 <= m < c5.len() implies (#[trigger] c5[m]).len() == 0 by {}
    lemma_flat_emptied(c5);
    assert(flat(c5) + x =~= x);
    assert(c1[1] == cs[1] && c2[4] == cs[4] && c3[2] == cs[2] && c4[3] == cs[3]);
}

/// Displacement data that its block carries and reads back unchanged: its
/// other pairs are free of the keys a displacement is read from and, where
/// it has no flags, none matches `flags` without regard to ASCII case; each
/// list of rows fits the row numbers of a machine, and each list of allowed
/// vertices has a key of its own.
pub open spec fn disp_writable(d: DispInfoView) -> bool {
    &&& free_pairs(d.extra.0, disp_keys())
    &&& d.flags is None ==> no_key_ic(d.extra.0, "flags"@)
    &&& d.normals.len() <= usize::MAX
    &&& d.distances.len() <= usize::MAX
    &&& d.offsets.len() <= usize::MAX
    &&& d.offset_normals.len() <= usize::MAX
    &&& d.alphas.len() <= usize::MAX
    &&& d.triangle_tags.len() <= usize::MAX
    &&& forall|i: int, j: int| 0 <= i < j < d.allowed_verts.len() ==> #[trigger] d.allowed_verts[i].0 != #[trigger] d.allowed_verts[j].0
}

/// Reading a displacement reads its blocks as [`disp_block_reads`] does.
proof fn lemma_disp_of_reads(b: BlockTree)
    ensures
        ({
            let (rows, av, rest) = disp_block_reads(b.blocks);
            let v = dispinfo_of(b);
            &&& v.normals == rows[0]
            &&& v.distances == rows[1]
            &&& v.alphas == rows[2]
            &&& v.triangle_tags == rows[3]
            &&& v.offsets == rows[4]
            &&& v.offset_normals == rows[5]
            &&& v.allowed_verts == match av {
                Some(x) => allowed_of(x.kvs),
                None => Seq::empty(),
            }
            &&& v.extra.1 == rest
        }),
{
    reveal(dispinfo_of);
    reveal(disp_block_reads);
}

/// What a displacement reads from the blocks of its block.
#[verifier::spinoff_prover]
proof fn lemma_disp_of_blocks(d: DispInfoView)
    ensures
        dispinfo_of(dispinfo_block(d)).normals == rows_of(rows_pairs(d.normals, d.normals.len())),
        dispinfo_of(dispinfo_block(d)).distances == rows_of(rows_pairs(d.distances, d.distances.len())),
        dispinfo_of(dispinfo_block(d)).offsets == rows_of(rows_pairs(d.offsets, d.offsets.len())),
        dispinfo_of(dispinfo_block(d)).offset_normals == rows_of(rows_pairs(d.offset_normals, d.offset_normals.len())),
        dispinfo_of(dispinfo_block(d)).alphas == rows_of(rows_pairs(d.alphas, d.alphas.len())),
        dispinfo_of(dispinfo_block(d)).triangle_tags == rows_of(rows_pairs(d.triangle_tags, d.triangle_tags.len())),
        dispinfo_of(dispinfo_block(d)).allowed_verts == allowed_of(allowed_pairs(d.allowed_verts)),
        dispinfo_of(dispinfo_block(d)).extra.1 == d.extra.1,
{
    lemma_disp_blocks_read(d);
    lemma_disp_of_reads(dispinfo_block(d));
    let l0 = disp_blocks(d);
    assert(l0[0].kvs == rows_pairs(d.normals, d.normals.len()));
    assert(l0[1].kvs == rows_pairs(d.distances, d.distances.len()));
    assert(l0[2].kvs == rows_pairs(d.offsets, d.offsets.len()));
    assert(l0[3].kvs == rows_pairs(d.offset_normals, d.offset_normals.len()));
    assert(l0[4].kvs == rows_pairs(d.alphas, d.alphas.len()));
    assert(l0[5].kvs == rows_pairs(d.triangle_tags, d.triangle_tags.len()));
    assert(l0[6].kvs == allowed_pairs(d.allowed_verts));
}

/// What a displacement reads from the pairs of its block.
#[verifier::spinoff_prover]
proof fn lemma_disp_of_pairs(d: DispInfoView)
    requires
        free_pairs(d.extra.0, disp_keys()),
        d.flags is None ==> no_key_ic(d.extra.0, "flags"@),
    ensures
        dispinfo_of(dispinfo_block(d)).power == d.power,
        dispinfo_of(dispinfo_block(d)).start_position == d.start_position,
        dispinfo_of(dispinfo_block(d)).flags == d.flags,
        dispinfo_of(dispinfo_block(d)).elevation == d.elevation,
        dispinfo_of(dispinfo_block(d)).subdiv == d.subdiv,
        dispinfo_of(dispinfo_block(d)).extra.0 == d.extra.0,
{
    lemma_disp_pairs_read(d);
    lemma_dec_reads_back(d.power as nat, u8::MAX as int);
    match d.flags {
        Some(f) => {
            lemma_dec_reads_back(f as nat, u32::MAX as int);
        },
        None => {},
    }
    lemma_bool_text_reads_back(d.subdiv);
    reveal(dispinfo_of);
}

/// A displacement written as a `dispinfo` block reads back from it as
/// itself, where the block carries it unchanged (see [`disp_writable`]).
pub proof fn lemma_disp_trip(d: DispInfoView)
    requires
        disp_writable(d),
    ensures
        dispinfo_of(dispinfo_block(d)) == d,
{
    lemma_disp_of_blocks(d);
    lemma_disp_of_pairs(d);
    lemma_rows_trip(d.normals);
    lemma_rows_trip(d.distances);
    lemma_rows_trip(d.offsets);
    lemma_rows_trip(d.offset_normals);
    lemma_rows_trip(d.alphas);
    lemma_rows_trip(d.triangle_tags);
    lemma_allowed_trip(d.allowed_verts);
    let v = dispinfo_of(dispinfo_block(d));
    assert(v.extra == d.extra);
}

/// A solid that its block carries and reads back unchanged: its other pairs
/// have no `id` key, its other blocks are named neither `side` nor
/// `editor`, and its sides and editor data are carried unchanged too.
pub open spec fn solid_writable(s: SolidView) -> bool {
    &&& free_pairs(s.extra.0, seq!["id"@])
    &&& forall|i: int| 0 <= i < s.extra.1.len() ==> !named(#[trigger] s.extra.1[i], "side"@) && !named(s.extra.1[i], "editor"@)
    &&& forall|i: int| 0 <= i < s.sides.len() ==> side_writable(#[trigger] s.sides[i])
    &&& editor_writable(s.editor)
}

/// Blocks named neither `side` nor `editor` after others are kept as other
/// blocks of a solid.
proof fn lemma_solid_blocks_plain(a: Seq<BlockTree>, b: Seq<BlockTree>)
    requires
        forall|i: int| 0 <= i < b.len() ==> !named(#[trigger] b[i], "side"@) && !named(b[i], "editor"@),
    ensures
        solid_blocks(a + b) == (SolidParts { unknown: solid_blocks(a).unknown + b, ..solid_blocks(a) }),
    decreases b.len(),
{
    if b.len() == 0 {
        assert(a + b =~= a);
        assert(solid_blocks(a).unknown + b =~= solid_blocks(a).unknown);
        assert(solid_blocks(a) == (SolidParts { unknown: solid_blocks(a).unknown + b, ..solid_blocks(a) }));
    } else {
        let bd = b.drop_last();
        assert forall|i: int| 0 <= i < bd.len() implies !named(#[trigger] bd[i], "side"@) && !named(bd[i], "editor"@) by {
            assert(bd[i] == b[i]);
        }
        lemma_solid_blocks_plain(a, bd);
        assert((a + b).drop_last() =~= a + bd);
        assert((a + b).last() == b[b.len() - 1]);
        assert(!named(b[b.len() - 1], "side"@) && !named(b[b.len() - 1], "editor"@));
        assert((solid_blocks(a).unknown + bd).push(b.last()) =~= solid_blocks(a).unknown + b);
        assert(solid_blocks(a + b) == crate::vmf::world::solid_step(solid_blocks(a + bd), b.last()));
        assert(solid_blocks(a + b).unknown == solid_blocks(a).unknown + b);
    }
}

/// Side blocks are read as the sides they were written from.
proof fn lemma_solid_sides(ss: Seq<SideView>)
    requires
        forall|i: int| 0 <= i < ss.len() ==> side_writable(#[trigger] ss[i]),
    ensures
        solid_blocks(ss.map_values(|x: SideView| crate::vmf::convert::side_block(x))) == (SolidParts {
            sides: ss,
            editor: default_editor(),
            unknown: Seq::empty(),
        }),
    decreases ss.len(),
{
    let bs = ss.map_values(|x: SideView| crate::vmf::convert::side_block(x));
    if ss.len() > 0 {
        let d = ss.drop_last();
        assert forall|i: int| 0 <= i < d.len() implies side_writable(#[trigger] d[i]) by {
            assert(d[i] == ss[i]);
        }
        lemma_solid_sides(d);
        assert(bs.drop_last() =~= d.map_values(|x: SideView| crate::vmf::convert::side_block(x)));
        reveal_strlit("side");
        assert(bs.last() == crate::vmf::convert::side_block(ss.last()));
        assert(named(bs.last(), "side"@));
        assert(side_writable(ss[ss.len() - 1]));
        lemma_side_trip(ss.last());
        assert(d.push(ss.last()) =~= ss);
        assert(solid_blocks(bs) == crate::vmf::world::solid_step(solid_blocks(bs.drop_last()), bs.last()));
    } else {
        assert(bs =~= Seq::<BlockTree>::empty());
        assert(ss =~= Seq::<SideView>::empty());
    }
}

/// A solid written as a `solid` block reads back from it as itself, where
/// the block carries it unchanged (see [`solid_writable`]).
pub proof fn lemma_solid_trip(s: SolidView)
    requires
        solid_writable(s),
    ensures
        solid_of(solid_block(s)) == s,
{
    reveal(keyed);
    reveal(distinct_ic);
    let b = solid_block(s);
    let ks = seq!["id"@];
    let cs = seq![seq![(ks[0], dec(s.id as nat))]];
    assert(keyed(cs, ks));
    assert(cs.take(0) =~= Seq::<Pairs>::empty());
    lemma_put_piece(cs, ks, 0, Some(dec(s.id as nat)));
    assert(cs.take(1) =~= cs);
    lemma_put_extra(cs, ks, s.extra.0);
    lemma_take_piece(cs, ks, s.extra.0, 0);
    let c1 = cs.update(0, Seq::empty());
    assert forall|m: int| 0 <= m < c1.len() implies (#[trigger] c1[m]).len() == 0 by {}
    lemma_flat_emptied(c1);
    assert(flat(c1) + s.extra.0 =~= s.extra.0);
    lemma_dec_reads_back(s.id as nat, u64::MAX as int);
    let sb = s.sides.map_values(|x: SideView| crate::vmf::convert::side_block(x));
    let eb = seq![editor_block(s.editor)];
    assert(b.blocks == sb + eb + s.extra.1);
    lemma_solid_sides(s.sides);
    reveal_strlit("editor");
    reveal_strlit("side");
    assert(eb.drop_last() =~= Seq::<BlockTree>::empty());
    assert((sb + eb).drop_last() =~= sb);
    assert((sb + eb).last() == editor_block(s.editor));
    assert(named(editor_block(s.editor), "editor"@));
    assert(!named(editor_block(s.editor), "side"@));
    lemma_editor_trip(s.editor);
    lemma_solid_blocks_plain(sb + eb, s.extra.1);
    assert(Seq::<BlockTree>::empty() + s.extra.1 =~= s.extra.1);
    reveal(solid_of);
    let v = solid_of(b);
    assert(v.id == s.id);
    assert(v.sides == s.sides);
    assert(v.editor == s.editor);
    assert(v.extra == s.extra);
}

/// Whether a block bears one of the names an entity reads its parts from.
pub open spec fn entity_part(b: BlockTree) -> bool {
    named(b, "editor"@) || named(b, "connections"@) || named(b, "solid"@) || named(b, "hidden"@)
}

/// An entity that its block carries and reads back unchanged: it is not
/// hidden and has no pairs beside its pairs, its connections (where it has
/// a list of them) are not none, stand grouped by output and are each
/// written without the separator of repeated keys and read back as
/// themselves, its solids (where it has a list of them) are not none and
/// are carried unchanged, its editor data has no other pair under a key
/// editor data is read from, and none of its other blocks bears the name of
/// a part of an entity.
pub open spec fn entity_writable(e: EntityView) -> bool {
    &&& !e.is_hidden
    &&& e.extra.0.len() == 0
    &&& e.connections matches Some(cs) ==> cs.len() > 0 && grouped(cs) && forall|i: int|
        0 <= i < cs.len() ==> writable(#[trigger] cs[i])
    &&& e.solids matches Some(ss) ==> ss.len() > 0 && forall|i: int| 0 <= i < ss.len() ==> solid_writable(#[trigger] ss[i])
    &&& editor_writable(e.editor)
    &&& forall|i: int| 0 <= i < e.extra.1.len() ==> !entity_part(#[trigger] e.extra.1[i])
}

/// Blocks that bear no name of a part of an entity are kept as its other
/// blocks.
proof fn lemma_entity_blocks_plain(a: Seq<BlockTree>, b: Seq<BlockTree>)
    requires
        forall|i: int| 0 <= i < b.len() ==> !entity_part(#[trigger] b[i]),
    ensures
        entity_blocks(a + b) == (EntityParts { unknown: entity_blocks(a).unknown + b, ..entity_blocks(a) }),
    decreases b.len(),
{
    if b.len() == 0 {
        assert(a + b =~= a);
        assert(entity_blocks(a).unknown + b =~= entity_blocks(a).unknown);
        assert(entity_blocks(a) == (EntityParts { unknown: entity_blocks(a).unknown + b, ..entity_blocks(a) }));
    } else {
        let bd = b.drop_last();
        assert forall|i: int| 0 <= i < bd.len() implies !entity_part(#[trigger] bd[i]) by {
            assert(bd[i] == b[i]);
        }
        lemma_entity_blocks_plain(a, bd);
        assert((a + b).drop_last() =~= a + bd);
        assert((a + b).last() == b[b.len() - 1]);
        assert(!entity_part(b[b.len() - 1]));
        assert((entity_blocks(a).unknown + bd).push(b.last()) =~= entity_blocks(a).unknown + b);
        assert(entity_blocks(a + b) == entity_step(entity_blocks(a + bd), b.last()));
        assert(entity_blocks(a + b).unknown == entity_blocks(a).unknown + b);
    }
}

/// Solid blocks are read as the solids they were written from.
proof fn lemma_entity_solids(a: Seq<BlockTree>, ss: Seq<SolidView>)
    requires
        forall|i: int| 0 <= i < ss.len() ==> solid_writable(#[trigger] ss[i]),
    ensures
        entity_blocks(a + ss.map_values(|x: SolidView| solid_block(x))) == (EntityParts {
            solids: entity_blocks(a).solids + ss,
            ..entity_blocks(a)
        }),
    decreases ss.len(),
{
    let bs = ss.map_values(|x: SolidView| solid_block(x));
    if ss.len() == 0 {
        assert(a + bs =~= a);
        assert(entity_blocks(a).solids + ss =~= entity_blocks(a).solids);
        assert(entity_blocks(a) == (EntityParts { solids: entity_blocks(a).solids + ss, ..entity_blocks(a) }));
    } else {
        let d = ss.drop_last();
        assert forall|i: int| 0 <= i < d.len() implies solid_writable(#[trigger] d[i]) by {
            assert(d[i] == ss[i]);
        }
        lemma_entity_solids(a, d);
        let bd = d.map_values(|x: SolidView| solid_block(x));
        assert((a + bs).drop_last() =~= a + bd);
        assert((a + bs).last() == solid_block(ss.last()));
        reveal_strlit("solid");
        reveal_strlit("editor");
        assert(named(solid_block(ss.last()), "solid"@));
        assert(!named(solid_block(ss.last()), "editor"@));
        reveal_strlit("connections");
        assert(!named(solid_block(ss.last()), "connections"@));
        assert(solid_writable(ss[ss.len() - 1]));
        lemma_solid_trip(ss.last());
        assert((entity_blocks(a).solids + d).push(ss.last()) =~= entity_blocks(a).solids + ss);
        assert(entity_blocks(a + bs) == entity_step(entity_blocks(a + bd), solid_block(ss.last())));
        assert(entity_blocks(a + bs).solids == entity_blocks(a).solids + ss);
    }
}

/// An entity written as an `entity` block reads back from it as itself,
/// where the block carries it unchanged (see [`entity_writable`]).
pub proof fn lemma_entity_trip(e: EntityView)
    requires
        entity_writable(e),
    ensures
        entity_of(entity_block(e)) == e,
{
    reveal_strlit("connections");
    reveal_strlit("solid");
    reveal_strlit("editor");
    reveal_strlit("hidden");
    let b = entity_block(e);
    let head: Seq<BlockTree> = match e.connections {
        Some(cs) => if cs.len() > 0 {
            seq![BlockTree { name: "connections"@, kvs: pairs_of_conns(cs), blocks: Seq::empty() }]
        } else {
            Seq::empty()
        },
        None => Seq::empty(),
    };
    let ss = match e.solids {
        Some(ss) => ss,
        None => Seq::empty(),
    };
    let sb = ss.map_values(|x: SolidView| solid_block(x));
    let eb = seq![editor_block(e.editor)];
    assert(b.blocks =~= head + sb + eb + e.extra.1);
    // The connections come first.
    let p0 = entity_blocks(head);
    let base = entity_blocks(Seq::<BlockTree>::empty());
    assert(base.solids.len() == 0 && base.editor == default_editor() && base.unknown.len() == 0 && base.connections is None);
    match e.connections {
        Some(cs) => {
            lemma_key_values_round_trip(cs);
            assert(head.drop_last() =~= Seq::<BlockTree>::empty());
            assert(named(head.last(), "connections"@));
            assert(!named(head.last(), "editor"@));
            assert(p0 == entity_step(base, head.last()));
            assert(p0.connections == conns_of_block(pairs_of_conns(cs)));
        },
        None => {
            assert(head =~= Seq::<BlockTree>::empty());
        },
    }
    assert(p0.connections == e.connections);
    assert(p0.solids.len() == 0 && p0.editor == default_editor() && p0.unknown.len() == 0);
    // Then the solids.
    assert forall|i: int| 0 <= i < ss.len() implies solid_writable(#[trigger] ss[i]) by {}
    lemma_entity_solids(head, ss);
    let p1 = entity_blocks(head + sb);
    assert(p1.solids =~= ss);
    // Then the editor data.
    assert((head + sb + eb).drop_last() =~= head + sb);
    assert((head + sb + eb).last() == editor_block(e.editor));
    assert(named(editor_block(e.editor), "editor"@));
    lemma_editor_trip(e.editor);
    let p2 = entity_blocks(head + sb + eb);
    assert(p2 == entity_step(p1, editor_block(e.editor)));
    assert(p2.editor == e.editor);
    // Then the other blocks.
    lemma_entity_blocks_plain(head + sb + eb, e.extra.1);
    let p3 = entity_blocks(b.blocks);
    assert(p3.unknown =~= e.extra.1);
    assert(put_all(e.key_values, e.extra.0) == e.key_values);
    reveal(entity_of);
    let v = entity_of(b);
    assert(v.key_values == e.key_values);
    assert(v.connections == e.connections);
    assert(v.solids == e.solids);
    assert(v.editor == e.editor);
    assert(v.is_hidden == e.is_hidden);
    assert(v.extra =~= e.extra);
}

} // verus!
