//! Case-insensitive key extraction from the pairs of a block, and reading
//! of the values of typed fields with defaults and warnings.

use vstd::prelude::*;
use indexmap::IndexMap;
use crate::ordmap::{first_key, lemma_first_key, str_entries, smap_len, smap_get_index, smap_get_index_of,
    smap_shift_remove_index};
use crate::text::{dec, dec_int, eq_ic, eq_ignore_ascii_case, str_eq, contains_char, str_debug, debug_str,
    i64_to_string, u64_to_string, parse_int, parse_i32, parse_i8, parse_u8, parse_u16, parse_u32, parse_u64};
use crate::vmf::block::{REPEATED_KEY_SEP, split, split_text};
use crate::vmf::parse_ctx::{ParseCtx, CtxView, warned, missing_msg, unparsable_msg, join_with, texts};

verus! {

/// The pairs of a block, in order.
pub type Pairs = Seq<(Seq<char>, Seq<char>)>;

/// A value type of a typed field: read from the text of a pair, and
/// written back as text.
pub trait FieldValue: Sized {
    /// The value that a text stands for, if any.
    spec fn parse_spec(s: Seq<char>) -> Option<Self>;

    /// The text of a value.
    spec fn text_spec(v: Self) -> Seq<char>;

    /// Reads a value from its text (`str::parse`).
    fn parse_text(s: &str) -> (r: Option<Self>)
        ensures
            r == Self::parse_spec(s@),
    ;

    /// The text of the value (`to_string`).
    fn to_text(&self) -> (r: String)
        ensures
            r@ == Self::text_spec(*self),
    ;
}

impl FieldValue for i32 {
    open spec fn parse_spec(s: Seq<char>) -> Option<i32> {
        match parse_int(s, true, i32::MIN as int, i32::MAX as int) {
            Some(v) => Some(v as i32),
            None => None,
        }
    }

    open spec fn text_spec(v: i32) -> Seq<char> {
        dec_int(v as int)
    }

    fn parse_text(s: &str) -> (r: Option<i32>) {
        parse_i32(s)
    }

    fn to_text(&self) -> (r: String) {
        i64_to_string(*self as i64)
    }
}

impl FieldValue for i8 {
    open spec fn parse_spec(s: Seq<char>) -> Option<i8> {
        match parse_int(s, true, i8::MIN as int, i8::MAX as int) {
            Some(v) => Some(v as i8),
            None => None,
        }
    }

    open spec fn text_spec(v: i8) -> Seq<char> {
        dec_int(v as int)
    }

    fn parse_text(s: &str) -> (r: Option<i8>) {
        parse_i8(s)
    }

    fn to_text(&self) -> (r: String) {
        i64_to_string(*self as i64)
    }
}

impl FieldValue for u8 {
    open spec fn parse_spec(s: Seq<char>) -> Option<u8> {
        match parse_int(s, false, 0, u8::MAX as int) {
            Some(v) => Some(v as u8),
            None => None,
        }
    }

    open spec fn text_spec(v: u8) -> Seq<char> {
        dec(v as nat)
    }

    fn parse_text(s: &str) -> (r: Option<u8>) {
        parse_u8(s)
    }

    fn to_text(&self) -> (r: String) {
        u64_to_string(*self as u64)
    }
}

impl FieldValue for u16 {
    open spec fn parse_spec(s: Seq<char>) -> Option<u16> {
        match parse_int(s, false, 0, u16::MAX as int) {
            Some(v) => Some(v as u16),
            None => None,
        }
    }

    open spec fn text_spec(v: u16) -> Seq<char> {
        dec(v as nat)
    }

    fn parse_text(s: &str) -> (r: Option<u16>) {
        parse_u16(s)
    }

    fn to_text(&self) -> (r: String) {
        u64_to_string(*self as u64)
    }
}

impl FieldValue for u32 {
    open spec fn parse_spec(s: Seq<char>) -> Option<u32> {
        match parse_int(s, false, 0, u32::MAX as int) {
            Some(v) => Some(v as u32),
            None => None,
        }
    }

    open spec fn text_spec(v: u32) -> Seq<char> {
        dec(v as nat)
    }

    fn parse_text(s: &str) -> (r: Option<u32>) {
        parse_u32(s)
    }

    fn to_text(&self) -> (r: String) {
        u64_to_string(*self as u64)
    }
}

impl FieldValue for u64 {
    open spec fn parse_spec(s: Seq<char>) -> Option<u64> {
        match parse_int(s, false, 0, u64::MAX as int) {
            Some(v) => Some(v as u64),
            None => None,
        }
    }

    open spec fn text_spec(v: u64) -> Seq<char> {
        dec(v as nat)
    }

    fn parse_text(s: &str) -> (r: Option<u64>) {
        parse_u64(s)
    }

    fn to_text(&self) -> (r: String) {
        u64_to_string(*self)
    }
}

/// A boolean written as "0" or "1".
pub trait To01String {
    /// Converts the boolean value to a "0" or "1" string.
    fn to_01_string(self) -> String;
}

/// The text of a boolean in a map file.
pub open spec fn bool_text(b: bool) -> Seq<char> {
    if b {
        seq!['1']
    } else {
        seq!['0']
    }
}

impl To01String for bool {
    fn to_01_string(self) -> (s: String)
        ensures
            s@ == bool_text(self),
    {
        if self {
            let mut s = String::new();
            crate::text::push_char(&mut s, '1');
            s
        } else {
            let mut s = String::new();
            crate::text::push_char(&mut s, '0');
            s
        }
    }
}

/// Index of the first pair whose key matches `k` without regard to ASCII
/// case, or -1.
pub open spec fn first_ic_key(es: Pairs, k: Seq<char>) -> int
    decreases es.len(),
{
    if es.len() == 0 {
        -1
    } else {
        let r = first_ic_key(es.drop_last(), k);
        if r >= 0 {
            r
        } else if eq_ic(es.last().0, k) {
            es.len() - 1
        } else {
            -1
        }
    }
}

pub proof fn lemma_first_ic_key(es: Pairs, k: Seq<char>)
    ensures
        -1 <= first_ic_key(es, k) < es.len(),
        first_ic_key(es, k) >= 0 ==> eq_ic(es[first_ic_key(es, k)].0, k),
    decreases es.len(),
{
    if es.len() > 0 {
        lemma_first_ic_key(es.drop_last(), k);
    }
}

/// The pair that a lookup of `k` finds: the first whose key is exactly
/// `k`, else the first whose key matches `k` without regard to ASCII case;
/// -1 if none.
pub open spec fn key_slot(es: Pairs, k: Seq<char>) -> int {
    if first_key(es, k) >= 0 {
        first_key(es, k)
    } else {
        first_ic_key(es, k)
    }
}

/// What taking `k` out of `es` gives: the value of the pair found, and
/// the pairs left in their order.
pub open spec fn taken(es: Pairs, k: Seq<char>) -> (Option<Seq<char>>, Pairs) {
    let i = key_slot(es, k);
    if 0 <= i < es.len() {
        (Some(es[i].1), es.remove(i))
    } else {
        (None, es)
    }
}

/// The text of an optional string.
pub open spec fn opt_text(o: Option<String>) -> Option<Seq<char>> {
    match o {
        Some(s) => Some(s@),
        None => None,
    }
}

/// Finds the position of `key`, matching ASCII case-insensitively.
fn resolve(map: &IndexMap<String, String>, key: &str) -> (r: Option<usize>)
    ensures
        r matches Some(i) ==> i == key_slot(str_entries(*map), key@) && i < str_entries(*map).len(),
        r is None ==> key_slot(str_entries(*map), key@) < 0,
{
    let ghost es = str_entries(*map);
    proof {
        lemma_first_key(es, key@);
    }
    match smap_get_index_of(map, key) {
        Some(i) => Some(i),
        None => {
            let n = smap_len(map);
            let mut i: usize = 0;
            assert(es.take(0) =~= Seq::<(Seq<char>, Seq<char>)>::empty());
            while i < n
                invariant
                    i <= n,
                    n == es.len(),
                    es == str_entries(*map),
                    first_key(es, key@) < 0,
                    first_ic_key(es.take(i as int), key@) < 0,
                decreases n - i,
            {
                assert(es.take(i + 1).drop_last() =~= es.take(i as int));
                match smap_get_index(map, i) {
                    Some((k, _)) => {
                        if eq_ignore_ascii_case(k.as_str(), key) {
                            proof {
                                lemma_ic_prefix(es, key@, (i + 1) as int);
                            }
                            return Some(i);
                        }
                    },
                    None => {},
                }
                i = i + 1;
            }
            assert(es.take(n as int) =~= es);
            None
        },
    }
}

/// Once some prefix of `es` has a match, the first match of `es` is that
/// of the prefix.
proof fn lemma_ic_prefix(es: Pairs, k: Seq<char>, n: int)
    requires
        0 <= n <= es.len(),
    ensures
        first_ic_key(es.take(n), k) >= 0 ==> first_ic_key(es, k) == first_ic_key(es.take(n), k),
    decreases es.len() - n,
{
    if n < es.len() {
        lemma_ic_prefix(es, k, n + 1);
        assert(es.take(n + 1).drop_last() =~= es.take(n));
    } else {
        assert(es.take(n) =~= es);
    }
}

/// Removes `key` case-insensitively and returns its value; the other pairs
/// keep their order.
pub fn take_key(map: &mut IndexMap<String, String>, key: &str) -> (r: Option<String>)
    ensures
        opt_text(r) == taken(str_entries(*old(map)), key@).0,
        str_entries(*final(map)) == taken(str_entries(*old(map)), key@).1,
{
    match resolve(map, key) {
        Some(i) => {
            match smap_shift_remove_index(map, i) {
                Some((_, v)) => Some(v),
                None => None,
            }
        },
        None => None,
    }
}

/// The message of a key written several times where one value is read.
pub open spec fn repeated_msg(key: Seq<char>, value: Seq<char>) -> Seq<char> {
    let parts = split(value, REPEATED_KEY_SEP);
    "key '"@ + key + "' is written "@ + dec(parts.len()) + " times but only one value is modelled, keeping none of "@
        + seq!['['] + join_with(parts.map_values(|p: Seq<char>| str_debug(p)), seq![',', ' ']) + seq![']']
}

/// The context after the check for a key written several times.
pub open spec fn repeat_checked(c: CtxView, key: Seq<char>, value: Seq<char>) -> CtxView {
    if value.contains(REPEATED_KEY_SEP) {
        warned(c, repeated_msg(key, value))
    } else {
        c
    }
}

/// Warns if a single-valued field holds several values joined by
/// [`REPEATED_KEY_SEP`].
pub fn warn_if_repeated(key: &str, value: &str, ctx: &mut ParseCtx)
    ensures
        final(ctx)@ == repeat_checked(old(ctx)@, key@, value@),
{
    if contains_char(value, REPEATED_KEY_SEP) {
        let parts = split_text(value, REPEATED_KEY_SEP);
        let ghost ps = parts@.map_values(|p: String| p@);
        let mut shown: Vec<String> = Vec::new();
        let mut i: usize = 0;
        while i < parts.len()
            invariant
                i <= parts@.len(),
                ps == parts@.map_values(|p: String| p@),
                texts(shown@) == ps.take(i as int).map_values(|p: Seq<char>| str_debug(p)),
            decreases parts.len() - i,
        {
            let d = debug_str(parts[i].as_str());
            let ghost s0 = shown@;
            shown.push(d);
            assert(texts(shown@) =~= texts(s0).push(d@));
            assert(ps.take(i + 1).map_values(|p: Seq<char>| str_debug(p)) =~= ps.take(i as int).map_values(
                |p: Seq<char>| str_debug(p),
            ).push(str_debug(ps[i as int])));
            i = i + 1;
        }
        assert(ps.take(parts@.len() as int) =~= ps);
        let list = crate::vmf::parse_ctx::join_strings(&shown, ", ");
        let count = u64_to_string(parts.len() as u64);
        let mut m = String::new();
        m.append("key '");
        m.append(key);
        m.append("' is written ");
        m.append(count.as_str());
        m.append(" times but only one value is modelled, keeping none of ");
        crate::text::push_char(&mut m, '[');
        m.append(list.as_str());
        crate::text::push_char(&mut m, ']');
        proof {
            reveal_strlit(", ");
            assert(", "@ =~= seq![',', ' ']);
        }
        assert(m@ =~= repeated_msg(key@, value@));
        ctx.warn(m.as_str());
    }
}

/// The message of a part of a repeated key that could not be read.
pub open spec fn bad_part_msg(key: Seq<char>, part: Seq<char>) -> Seq<char> {
    "key '"@ + key + "' has unparsable value '"@ + part + "'"@
}

/// The values that the parts stand for, in order, leaving out those that
/// stand for none.
pub open spec fn parsed_parts<T: FieldValue>(parts: Seq<Seq<char>>) -> Seq<T>
    decreases parts.len(),
{
    if parts.len() == 0 {
        Seq::empty()
    } else {
        let before = parsed_parts::<T>(parts.drop_last());
        match T::parse_spec(parts.last()) {
            Some(v) => before.push(v),
            None => before,
        }
    }
}

/// The context after a warning for each part that stands for no value.
pub open spec fn parts_checked<T: FieldValue>(c: CtxView, key: Seq<char>, parts: Seq<Seq<char>>) -> CtxView
    decreases parts.len(),
{
    if parts.len() == 0 {
        c
    } else {
        let before = parts_checked::<T>(c, key, parts.drop_last());
        match T::parse_spec(parts.last()) {
            Some(_) => before,
            None => warned(before, bad_part_msg(key, parts.last())),
        }
    }
}

/// Removes `key` and reads each of the values joined by
/// [`REPEATED_KEY_SEP`], warning of those that cannot be read.
pub fn take_multi_parse<T: FieldValue>(map: &mut IndexMap<String, String>, key: &str, ctx: &mut ParseCtx) -> (r:
    Vec<T>)
    ensures
        str_entries(*final(map)) == taken(str_entries(*old(map)), key@).1,
        match taken(str_entries(*old(map)), key@).0 {
            Some(v) => r@ == parsed_parts::<T>(split(v, REPEATED_KEY_SEP)) && final(ctx)@ == parts_checked::<T>(
                old(ctx)@,
                key@,
                split(v, REPEATED_KEY_SEP),
            ),
            None => r@ == Seq::<T>::empty() && final(ctx)@ == old(ctx)@,
        },
{
    let value = match take_key(map, key) {
        Some(v) => v,
        None => {
            let r: Vec<T> = Vec::new();
            assert(r@ =~= Seq::<T>::empty());
            return r;
        },
    };
    let parts = split_text(value.as_str(), REPEATED_KEY_SEP);
    let ghost ps = parts@.map_values(|p: String| p@);
    let ghost c0 = ctx@;
    let mut out: Vec<T> = Vec::new();
    let mut i: usize = 0;
    while i < parts.len()
        invariant
            i <= parts@.len(),
            ps == parts@.map_values(|p: String| p@),
            out@ == parsed_parts::<T>(ps.take(i as int)),
            ctx@ == parts_checked::<T>(c0, key@, ps.take(i as int)),
        decreases parts.len() - i,
    {
        assert(ps.take(i + 1).drop_last() =~= ps.take(i as int));
        match T::parse_text(parts[i].as_str()) {
            Some(v) => {
                out.push(v);
            },
            None => {
                let mut m = String::new();
                m.append("key '");
                m.append(key);
                m.append("' has unparsable value '");
                m.append(parts[i].as_str());
                m.append("'");
                assert(m@ =~= bad_part_msg(key@, ps[i as int]));
                ctx.warn(m.as_str());
            },
        }
        i = i + 1;
    }
    assert(ps.take(parts@.len() as int) =~= ps);
    out
}

/// The message of a nested block that is kept as it is.
pub open spec fn unexpected_msg(name: Seq<char>) -> Seq<char> {
    "unexpected block '"@ + name + "', kept as-is"@
}

/// The context after a warning about each of `bs`, kept as they are.
pub open spec fn unexpected_ctx(c: CtxView, bs: Seq<crate::vmf::block::BlockTree>) -> CtxView
    decreases bs.len(),
{
    if bs.len() == 0 {
        c
    } else {
        warned(unexpected_ctx(c, bs.drop_last()), unexpected_msg(bs.last().name))
    }
}

/// The context within a nested block `seg` of `c`.
pub open spec fn entered(c: CtxView, seg: Seq<char>) -> CtxView {
    CtxView { path: c.path.push(seg), ..c }
}

/// The context `c` back at the path `p`.
pub open spec fn at_path(c: CtxView, p: Seq<Seq<char>>) -> CtxView {
    CtxView { path: p, ..c }
}

/// The context after [`take_str`] found `v` under `key`, or found nothing.
pub open spec fn str_ctx(c: CtxView, key: Seq<char>, v: Option<Seq<char>>, default: Seq<char>) -> CtxView {
    match v {
        Some(t) => repeat_checked(c, key, t),
        None => warned(c, missing_msg(key, default)),
    }
}

/// The context after [`take_opt_parse`] found `v` under `key`, or nothing.
pub open spec fn opt_parse_ctx<T: FieldValue>(c: CtxView, key: Seq<char>, v: Option<Seq<char>>) -> CtxView {
    match v {
        Some(t) => if T::parse_spec(t) is Some {
            repeat_checked(c, key, t)
        } else {
            warned(repeat_checked(c, key, t), bad_part_msg(key, t))
        },
        None => c,
    }
}

/// The context after [`take_multi_parse`] found `v` under `key`, or
/// nothing.
pub open spec fn multi_ctx<T: FieldValue>(c: CtxView, key: Seq<char>, v: Option<Seq<char>>) -> CtxView {
    match v {
        Some(t) => parts_checked::<T>(c, key, split(t, REPEATED_KEY_SEP)),
        None => c,
    }
}

/// The context after a value `v` found under `key`, if any, was checked
/// for being written several times.
pub open spec fn opt_text_ctx(c: CtxView, key: Seq<char>, v: Option<Seq<char>>) -> CtxView {
    match v {
        Some(t) => repeat_checked(c, key, t),
        None => c,
    }
}

/// Removes `key`, or warns and returns `default` when it is missing.
pub fn take_str(map: &mut IndexMap<String, String>, key: &str, default: &str, ctx: &mut ParseCtx) -> (r: String)
    ensures
        str_entries(*final(map)) == taken(str_entries(*old(map)), key@).1,
        match taken(str_entries(*old(map)), key@).0 {
            Some(v) => r@ == v && final(ctx)@ == repeat_checked(old(ctx)@, key@, v),
            None => r@ == default@ && final(ctx)@ == warned(old(ctx)@, missing_msg(key@, default@)),
        },
{
    match take_key(map, key) {
        Some(value) => {
            warn_if_repeated(key, value.as_str(), ctx);
            value
        },
        None => {
            ctx.warn_missing(key, default);
            default.to_string()
        },
    }
}

/// The field read by [`take_parse`] from the value found, if any.
pub open spec fn parse_or<T: FieldValue>(v: Option<Seq<char>>, default: T) -> T {
    match v {
        Some(t) => match T::parse_spec(t) {
            Some(x) => x,
            None => default,
        },
        None => default,
    }
}

/// The context after [`take_parse`] read the value found, if any.
pub open spec fn parse_or_ctx<T: FieldValue>(c: CtxView, key: Seq<char>, v: Option<Seq<char>>, default: T) -> CtxView {
    match v {
        Some(t) => {
            let c1 = repeat_checked(c, key, t);
            match T::parse_spec(t) {
                Some(_) => c1,
                None => warned(c1, unparsable_msg(key, t, T::text_spec(default))),
            }
        },
        None => warned(c, missing_msg(key, T::text_spec(default))),
    }
}

/// Removes `key` and reads it, warning and returning `default` when it is
/// missing or malformed.
pub fn take_parse<T: FieldValue>(map: &mut IndexMap<String, String>, key: &str, default: T, ctx: &mut ParseCtx) -> (r:
    T)
    ensures
        str_entries(*final(map)) == taken(str_entries(*old(map)), key@).1,
        r == parse_or(taken(str_entries(*old(map)), key@).0, default),
        final(ctx)@ == parse_or_ctx(old(ctx)@, key@, taken(str_entries(*old(map)), key@).0, default),
{
    match take_key(map, key) {
        Some(value) => {
            warn_if_repeated(key, value.as_str(), ctx);
            match T::parse_text(value.as_str()) {
                Some(v) => v,
                None => {
                    let d = default.to_text();
                    ctx.warn_unparsable(key, value.as_str(), d.as_str());
                    default
                },
            }
        },
        None => {
            let d = default.to_text();
            ctx.warn_missing(key, d.as_str());
            default
        },
    }
}

/// Removes `key` and reads it as a boolean of a map file ("1" is true),
/// warning and returning `default` when it is missing.
pub fn take_bool(map: &mut IndexMap<String, String>, key: &str, default: bool, ctx: &mut ParseCtx) -> (r: bool)
    ensures
        str_entries(*final(map)) == taken(str_entries(*old(map)), key@).1,
        match taken(str_entries(*old(map)), key@).0 {
            Some(v) => r == (v == seq!['1']) && final(ctx)@ == repeat_checked(old(ctx)@, key@, v),
            None => r == default && final(ctx)@ == warned(old(ctx)@, missing_msg(key@, bool_text(default))),
        },
{
    match take_key(map, key) {
        Some(value) => {
            warn_if_repeated(key, value.as_str(), ctx);
            proof {
                reveal_strlit("1");
                assert("1"@ =~= seq!['1']);
            }
            str_eq(value.as_str(), "1")
        },
        None => {
            let d = default.to_01_string();
            ctx.warn_missing(key, d.as_str());
            default
        },
    }
}

/// Removes `key` and reads it if present, warning only if the value is
/// malformed.
pub fn take_opt_parse<T: FieldValue>(map: &mut IndexMap<String, String>, key: &str, ctx: &mut ParseCtx) -> (r:
    Option<T>)
    ensures
        str_entries(*final(map)) == taken(str_entries(*old(map)), key@).1,
        match taken(str_entries(*old(map)), key@).0 {
            Some(v) => r == T::parse_spec(v) && final(ctx)@ == (if T::parse_spec(v) is Some {
                repeat_checked(old(ctx)@, key@, v)
            } else {
                warned(repeat_checked(old(ctx)@, key@, v), bad_part_msg(key@, v))
            }),
            None => r is None && final(ctx)@ == old(ctx)@,
        },
{
    let value = match take_key(map, key) {
        Some(v) => v,
        None => {
            return None;
        },
    };
    warn_if_repeated(key, value.as_str(), ctx);
    match T::parse_text(value.as_str()) {
        Some(v) => Some(v),
        None => {
            let mut m = String::new();
            m.append("key '");
            m.append(key);
            m.append("' has unparsable value '");
            m.append(value.as_str());
            m.append("'");
            assert(m@ =~= bad_part_msg(key@, value@));
            ctx.warn(m.as_str());
            None
        },
    }
}

/// A warning leaves the path of the context as it is.
pub broadcast proof fn lemma_warned_path(c: CtxView, msg: Seq<char>)
    ensures
        #[trigger] warned(c, msg).path == c.path,
{
}

/// The check for a key written several times leaves the path as it is.
pub broadcast proof fn lemma_repeat_path(c: CtxView, key: Seq<char>, v: Seq<char>)
    ensures
        #[trigger] repeat_checked(c, key, v).path == c.path,
{
}

/// The warnings of parts leave the path of the context as it is.
pub broadcast proof fn lemma_parts_checked_path<T: FieldValue>(c: CtxView, key: Seq<char>, parts: Seq<Seq<char>>)
    ensures
        #[trigger] parts_checked::<T>(c, key, parts).path == c.path,
    decreases parts.len(),
{
    if parts.len() > 0 {
        lemma_parts_checked_path::<T>(c, key, parts.drop_last());
    }
}

/// Reading a field leaves the path of the context as it is.
pub broadcast proof fn lemma_parse_or_path<T: FieldValue>(c: CtxView, key: Seq<char>, v: Option<Seq<char>>, d: T)
    ensures
        #[trigger] parse_or_ctx::<T>(c, key, v, d).path == c.path,
{
}

pub broadcast group group_ctx_paths {
    lemma_warned_path,
    lemma_repeat_path,
    lemma_parts_checked_path,
    lemma_parse_or_path,
}

/// A boolean written as `0` or `1` reads back as itself: the reading takes
/// `1` for true and anything else for false.
pub proof fn lemma_bool_text_reads_back(b: bool)
    ensures
        (bool_text(b) == seq!['1']) == b,
{
    if !b {
        assert(bool_text(b)[0] != seq!['1'][0]);
    }
}

} // verus!
