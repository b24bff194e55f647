//! Entity IO: the connections that wire outputs to inputs.
//!
//! A connection is one line inside an entity's `connections` block:
//! `"OnTrigger" "target<S>input<S>params<S>delay<S>fire_limit"`, where
//! `<S>` is ESC (`\x1b`) in Source and in Hammer, and a comma in Hammer++.
//!
//! The delay is a floating-point number of seconds; it is kept here as the
//! text written in the file.

use vstd::prelude::*;
use vstd::string::StrSliceExecFns;
use indexmap::IndexMap;
use crate::ordmap::{first_key, lemma_first_key, str_entries, smap_new, smap_len, smap_get_index};
use crate::text::{contains_char, dec_int, eq_ic, eq_ignore_ascii_case, i64_to_string, parse_i32, parse_int,
    push_char};
use crate::vmf::block::{REPEATED_KEY_SEP, lemma_split_state_plain, split_state, lemma_join_concat, lemma_join_split, lemma_split_join, lemma_split_pieces, split,
    split_text};
use crate::text::{dec, is_digit, lemma_dec_digits, lemma_dec_int_reads_back};
use crate::vmf::parse_ctx::{join_with, texts};
use crate::vmf::parser::add_str;
use crate::vmf::utils::Pairs;

verus! {

/// The field separator Source and Hammer use.
pub const SEP_ESC: char = '\x1b';

/// The field separator used by Hammer++.
pub const SEP_COMMA: char = ',';

/// Represents a connection between entities.
#[derive(Debug, Clone, PartialEq)]
pub struct Connection {
    pub output: String,
    pub target: String,
    pub input: String,
    pub params: String,
    /// The delay in seconds, as written.
    pub delay: String,
    pub fire_limit: i32,
}

/// The content of a [`Connection`].
pub struct ConnView {
    pub output: Seq<char>,
    pub target: Seq<char>,
    pub input: Seq<char>,
    pub params: Seq<char>,
    pub delay: Seq<char>,
    pub fire_limit: i32,
}

impl View for Connection {
    type V = ConnView;

    open spec fn view(&self) -> ConnView {
        ConnView {
            output: self.output@,
            target: self.target@,
            input: self.input@,
            params: self.params@,
            delay: self.delay@,
            fire_limit: self.fire_limit,
        }
    }
}

/// The separator of a connection value: ESC where the value holds one,
/// else a comma.
pub open spec fn sep_of(value: Seq<char>) -> char {
    if value.contains(SEP_ESC) {
        SEP_ESC
    } else {
        SEP_COMMA
    }
}

/// The piece at `i`, or nothing where there is none.
pub open spec fn piece(ps: Seq<Seq<char>>, i: int) -> Seq<char> {
    if 0 <= i < ps.len() {
        ps[i]
    } else {
        Seq::empty()
    }
}

/// The fire limit written as `t`: -1 where `t` is no `i32`.
pub open spec fn fire_limit_of(t: Seq<char>) -> i32 {
    match parse_int(t, true, i32::MIN as int, i32::MAX as int) {
        Some(v) => v as i32,
        None => -1i32,
    }
}

/// The connection that `value` holds under `output`. The first two pieces
/// are the target and the input; of the rest, the last two are the fire
/// limit and the delay when there are at least three, and all of it is the
/// parameters otherwise.
pub open spec fn conn_of(output: Seq<char>, value: Seq<char>) -> ConnView {
    let sep = sep_of(value);
    let ps = split(value, sep);
    let n = ps.len() as int;
    let full = n >= 5;
    ConnView {
        output,
        target: piece(ps, 0),
        input: piece(ps, 1),
        params: if full {
            join_with(ps.subrange(2, n - 2), seq![sep])
        } else if n >= 3 {
            join_with(ps.subrange(2, n), seq![sep])
        } else {
            Seq::empty()
        },
        delay: if full {
            ps[n - 2]
        } else {
            Seq::empty()
        },
        fire_limit: if full {
            fire_limit_of(ps[n - 1])
        } else {
            -1i32
        },
    }
}

/// The value text of a connection, always with the ESC separator.
pub open spec fn value_text(c: ConnView) -> Seq<char> {
    c.target + seq![SEP_ESC] + c.input + seq![SEP_ESC] + c.params + seq![SEP_ESC] + c.delay + seq![SEP_ESC]
        + dec_int(c.fire_limit as int)
}

/// `instance:<proxy>;<io>` with the given parts.
pub open spec fn instance_text(proxy: Seq<char>, io: Seq<char>) -> Seq<char> {
    "instance:"@ + proxy + seq![';'] + io
}

/// Joins the pieces `lo..hi` of `ps` with `sep`.
fn join_range(ps: &Vec<String>, lo: usize, hi: usize, sep: char) -> (r: String)
    requires
        lo <= hi <= ps@.len(),
    ensures
        r@ == join_with(texts(ps@).subrange(lo as int, hi as int), seq![sep]),
{
    let ghost all = texts(ps@);
    let mut r = String::new();
    let mut i: usize = lo;
    assert(all.subrange(lo as int, lo as int) =~= Seq::<Seq<char>>::empty());
    while i < hi
        invariant
            lo <= i <= hi <= ps@.len(),
            all == texts(ps@),
            r@ == join_with(all.subrange(lo as int, i as int), seq![sep]),
        decreases hi - i,
    {
        assert(all.subrange(lo as int, i + 1).drop_last() =~= all.subrange(lo as int, i as int));
        if i > lo {
            push_char(&mut r, sep);
        } else {
            assert(all.subrange(lo as int, lo + 1) =~= seq![all[lo as int]]);
        }
        r.append(ps[i].as_str());
        i = i + 1;
    }
    r
}

/// The piece at `i`, or an empty string.
fn piece_at(ps: &Vec<String>, i: usize) -> (r: String)
    ensures
        r@ == piece(texts(ps@), i as int),
{
    if i < ps.len() {
        ps[i].clone()
    } else {
        String::new()
    }
}

impl Connection {
    /// Parses a connection value written under the output `output`.
    pub fn parse(output: String, value: &str) -> (c: Connection)
        ensures
            c@ == conn_of(output@, value@),
    {
        let sep = if contains_char(value, SEP_ESC) {
            SEP_ESC
        } else {
            SEP_COMMA
        };
        let ps = split_text(value, sep);
        let ghost pv = texts(ps@);
        assert(pv == split(value@, sep));
        let n = ps.len();
        let target = piece_at(&ps, 0);
        let input = piece_at(&ps, 1);
        let (params, delay, fire_limit) = if n >= 5 {
            let p = join_range(&ps, 2, n - 2, sep);
            let d = ps[n - 2].clone();
            let f = match parse_i32(ps[n - 1].as_str()) {
                Some(v) => v,
                None => -1,
            };
            (p, d, f)
        } else if n >= 3 {
            (join_range(&ps, 2, n, sep), String::new(), -1)
        } else {
            (String::new(), String::new(), -1)
        };
        Connection { output, target, input, params, delay, fire_limit }
    }

    /// Formats the connection value for a map file, always with the ESC
    /// separator.
    pub fn to_value_string(&self) -> (s: String)
        ensures
            s@ == value_text(self@),
    {
        let mut s = self.target.clone();
        push_char(&mut s, SEP_ESC);
        s.append(self.input.as_str());
        push_char(&mut s, SEP_ESC);
        s.append(self.params.as_str());
        push_char(&mut s, SEP_ESC);
        s.append(self.delay.as_str());
        push_char(&mut s, SEP_ESC);
        let f = i64_to_string(self.fire_limit as i64);
        s.append(f.as_str());
        assert(s@ =~= value_text(self@));
        s
    }

    /// Classifies how [`Connection::target`] addresses its destination.
    pub fn target_kind(&self) -> (t: Target<'_>)
        ensures
            t@ == target_view(self.target@),
    {
        Target::parse(self.target.as_str())
    }

    /// Reads [`Connection::input`] as `instance:<proxy>;<io>`, if it is one.
    pub fn instance_input(&self) -> (r: Option<InstanceIo<'_>>)
        ensures
            io_view(r) == instance_view(self.input@),
    {
        InstanceIo::parse(self.input.as_str())
    }

    /// Reads [`Connection::output`] as `instance:<proxy>;<io>`, if it is one.
    pub fn instance_output(&self) -> (r: Option<InstanceIo<'_>>)
        ensures
            io_view(r) == instance_view(self.output@),
    {
        InstanceIo::parse(self.output.as_str())
    }

    /// Rewrites [`Connection::input`] to address an entity inside an instance.
    pub fn set_instance_input(&mut self, proxy: &str, io: &str)
        ensures
            final(self)@ == (ConnView { input: instance_text(proxy@, io@), ..old(self)@ }),
    {
        self.input = instance_string(proxy, io);
    }

    /// Rewrites [`Connection::output`] to address an entity inside an instance.
    pub fn set_instance_output(&mut self, proxy: &str, io: &str)
        ensures
            final(self)@ == (ConnView { output: instance_text(proxy@, io@), ..old(self)@ }),
    {
        self.output = instance_string(proxy, io);
    }

    /// Reads the connections of a `connections` block: one per piece of
    /// each value between [`REPEATED_KEY_SEP`] separators, in order.
    /// `None` for a block with no pairs.
    pub fn from_key_values(map: &IndexMap<String, String>) -> (r: Option<Vec<Connection>>)
        ensures
            str_entries(*map).len() == 0 ==> r is None,
            str_entries(*map).len() > 0 ==> r is Some && conn_views(r->0@) == conns_of_pairs(str_entries(*map)),
    {
        let n = smap_len(map);
        if n == 0 {
            return None;
        }
        let ghost es = str_entries(*map);
        let mut result: Vec<Connection> = Vec::new();
        let mut i: usize = 0;
        assert(conn_views(result@) =~= conns_of_pairs(es.take(0)));
        while i < n
            invariant
                i <= n,
                n == es.len(),
                es == str_entries(*map),
                conn_views(result@) == conns_of_pairs(es.take(i as int)),
            decreases n - i,
        {
            assert(es.take(i + 1).drop_last() =~= es.take(i as int));
            match smap_get_index(map, i) {
                Some((key, value)) => {
                    let parts = split_text(value.as_str(), REPEATED_KEY_SEP);
                    let ghost ps = texts(parts@);
                    let ghost r0 = conn_views(result@);
                    let mut j: usize = 0;
                    assert(r0 + conns_of_parts(key@, ps.take(0)) =~= r0);
                    while j < parts.len()
                        invariant
                            j <= parts@.len(),
                            ps == texts(parts@),
                            conn_views(result@) == r0 + conns_of_parts(key@, ps.take(j as int)),
                        decreases parts.len() - j,
                    {
                        assert(ps.take(j + 1).drop_last() =~= ps.take(j as int));
                        let c = Connection::parse(key.clone(), parts[j].as_str());
                        let ghost rv = result@;
                        result.push(c);
                        assert(result@.drop_last() =~= rv);
                        assert(conn_views(result@) =~= conn_views(rv).push(c@));
                        j = j + 1;
                    }
                    assert(ps.take(parts@.len() as int) =~= ps);
                },
                None => {},
            }
            i = i + 1;
        }
        assert(es.take(n as int) =~= es);
        Some(result)
    }

    /// Writes connections into the pairs of a `connections` block: one pair
    /// per output name, in the order of first appearance, the values of
    /// that name joined by [`REPEATED_KEY_SEP`].
    pub fn to_key_values(connections: &[Connection]) -> (map: IndexMap<String, String>)
        ensures
            str_entries(map) == pairs_of_conns(conn_views(connections@)),
    {
        let mut map = smap_new();
        let mut i: usize = 0;
        let ghost cv = conn_views(connections@);
        assert(cv.take(0) =~= Seq::<ConnView>::empty());
        while i < connections.len()
            invariant
                i <= connections@.len(),
                cv == conn_views(connections@),
                str_entries(map) == pairs_of_conns(cv.take(i as int)),
            decreases connections.len() - i,
        {
            assert(cv.take(i + 1).drop_last() =~= cv.take(i as int));
            let v = connections[i].to_value_string();
            crate::vmf::parser::push_value(&mut map, connections[i].output.as_str(), v.as_str());
            i = i + 1;
        }
        assert(cv.take(connections@.len() as int) =~= cv);
        map
    }
}

/// The contents of a list of connections.
pub open spec fn conn_views(cs: Seq<Connection>) -> Seq<ConnView> {
    cs.map_values(|c: Connection| c@)
}

/// The connections that the pieces `parts` of a value give under `key`.
pub open spec fn conns_of_parts(key: Seq<char>, parts: Seq<Seq<char>>) -> Seq<ConnView>
    decreases parts.len(),
{
    if parts.len() == 0 {
        Seq::empty()
    } else {
        conns_of_parts(key, parts.drop_last()).push(conn_of(key, parts.last()))
    }
}

/// The connections of the pairs of a `connections` block, in order.
pub open spec fn conns_of_pairs(es: Pairs) -> Seq<ConnView>
    decreases es.len(),
{
    if es.len() == 0 {
        Seq::empty()
    } else {
        conns_of_pairs(es.drop_last()) + conns_of_parts(es.last().0, split(es.last().1, REPEATED_KEY_SEP))
    }
}

/// The pairs that connections are written as.
pub open spec fn pairs_of_conns(cs: Seq<ConnView>) -> Pairs
    decreases cs.len(),
{
    if cs.len() == 0 {
        Seq::empty()
    } else {
        add_str(pairs_of_conns(cs.drop_last()), cs.last().output, value_text(cs.last()))
    }
}

/// `instance:<proxy>;<io>`.
fn instance_string(proxy: &str, io: &str) -> (s: String)
    ensures
        s@ == instance_text(proxy@, io@),
{
    let mut s = String::new();
    s.append("instance:");
    s.append(proxy);
    push_char(&mut s, ';');
    s.append(io);
    assert(s@ =~= instance_text(proxy@, io@));
    s
}

/// A `!`-prefixed target the engine resolves at runtime instead of by name.
#[derive(Debug, Clone, Copy, PartialEq, Eq)]
pub enum Special<'a> {
    /// `!self` - the entity holding the output.
    SelfEnt,
    /// `!activator` - whatever triggered the chain.
    Activator,
    /// `!caller` - the entity that fired the output.
    Caller,
    /// `!player` - the first player.
    Player,
    /// `!pvsplayer` - the player whose PVS contains the caller.
    PvsPlayer,
    /// `!picker` - the entity under the player's crosshair.
    Picker,
    /// Any other unmapped `!` target.
    Other(&'a str),
}

/// How a connection's `target` string addresses its destination.
#[derive(Debug, Clone, Copy, PartialEq, Eq)]
pub enum Target<'a> {
    /// A plain targetname. Not unique: several entities may share one.
    Name(&'a str),
    /// A trailing-`*` prefix match, e.g. `door_*` yields `door_`.
    /// A bare `*` yields an empty prefix and matches every named entity.
    Wildcard(&'a str),
    /// A runtime-resolved `!` target.
    Special(Special<'a>),
}

/// The content of a [`Special`].
pub enum SpecialView {
    SelfEnt,
    Activator,
    Caller,
    Player,
    PvsPlayer,
    Picker,
    Other(Seq<char>),
}

/// The content of a [`Target`].
pub enum TargetView {
    Name(Seq<char>),
    Wildcard(Seq<char>),
    Special(SpecialView),
}

impl<'a> View for Special<'a> {
    type V = SpecialView;

    open spec fn view(&self) -> SpecialView {
        match *self {
            Special::SelfEnt => SpecialView::SelfEnt,
            Special::Activator => SpecialView::Activator,
            Special::Caller => SpecialView::Caller,
            Special::Player => SpecialView::Player,
            Special::PvsPlayer => SpecialView::PvsPlayer,
            Special::Picker => SpecialView::Picker,
            Special::Other(s) => SpecialView::Other(s@),
        }
    }
}

impl<'a> View for Target<'a> {
    type V = TargetView;

    open spec fn view(&self) -> TargetView {
        match *self {
            Target::Name(s) => TargetView::Name(s@),
            Target::Wildcard(s) => TargetView::Wildcard(s@),
            Target::Special(sp) => TargetView::Special(sp@),
        }
    }
}

/// The `!` target named by `tag`, compared without regard to ASCII case.
pub open spec fn special_view(tag: Seq<char>) -> SpecialView {
    if eq_ic(tag, "self"@) {
        SpecialView::SelfEnt
    } else if eq_ic(tag, "activator"@) {
        SpecialView::Activator
    } else if eq_ic(tag, "caller"@) {
        SpecialView::Caller
    } else if eq_ic(tag, "player"@) {
        SpecialView::Player
    } else if eq_ic(tag, "pvsplayer"@) {
        SpecialView::PvsPlayer
    } else if eq_ic(tag, "picker"@) {
        SpecialView::Picker
    } else {
        SpecialView::Other(tag)
    }
}

/// How a target text addresses its destination: a leading `!` marks a
/// runtime target, else a trailing `*` a prefix, else it is a name.
pub open spec fn target_view(t: Seq<char>) -> TargetView {
    if t.len() > 0 && t[0] == '!' {
        TargetView::Special(special_view(t.drop_first()))
    } else if t.len() > 0 && t.last() == '*' {
        TargetView::Wildcard(t.drop_last())
    } else {
        TargetView::Name(t)
    }
}

impl<'a> Target<'a> {
    /// Classifies a raw target string. Borrows, never allocates.
    pub fn parse(target: &'a str) -> (t: Self)
        ensures
            t@ == target_view(target@),
    {
        let n = target.unicode_len();
        if n > 0 && target.get_char(0) == '!' {
            let tag = target.substring_char(1, n);
            assert(tag@ =~= target@.drop_first());
            let special = if eq_ignore_ascii_case(tag, "self") {
                Special::SelfEnt
            } else if eq_ignore_ascii_case(tag, "activator") {
                Special::Activator
            } else if eq_ignore_ascii_case(tag, "caller") {
                Special::Caller
            } else if eq_ignore_ascii_case(tag, "player") {
                Special::Player
            } else if eq_ignore_ascii_case(tag, "pvsplayer") {
                Special::PvsPlayer
            } else if eq_ignore_ascii_case(tag, "picker") {
                Special::Picker
            } else {
                Special::Other(tag)
            };
            return Target::Special(special);
        }
        if n > 0 && target.get_char(n - 1) == '*' {
            let prefix = target.substring_char(0, n - 1);
            assert(prefix@ =~= target@.drop_last());
            Target::Wildcard(prefix)
        } else {
            Target::Name(target)
        }
    }

    /// The plain name, if this target is one. `None` for wildcards and `!`
    /// targets.
    pub fn name(&self) -> (r: Option<&'a str>)
        ensures
            match self@ {
                TargetView::Name(s) => r is Some && r->0@ == s,
                _ => r is None,
            },
    {
        match self {
            Target::Name(name) => Some(*name),
            _ => None,
        }
    }
}

/// The `instance:<proxy>;<io>` form, used to address IO across a
/// `func_instance` boundary. Applies to both input and output names.
#[derive(Debug, Clone, Copy, PartialEq, Eq)]
pub struct InstanceIo<'a> {
    /// Name of the entity inside the instance, or of the io proxy exposing it.
    pub proxy: &'a str,
    /// The real input or output name on that entity.
    pub io: &'a str,
}

/// Index of the first `c` in `s`, or -1.
pub open spec fn first_index(s: Seq<char>, c: char) -> int
    decreases s.len(),
{
    if s.len() == 0 {
        -1
    } else if s[0] == c {
        0
    } else if first_index(s.drop_first(), c) < 0 {
        -1
    } else {
        first_index(s.drop_first(), c) + 1
    }
}

proof fn lemma_first_index(s: Seq<char>, c: char)
    ensures
        -1 <= first_index(s, c) < s.len(),
        first_index(s, c) >= 0 ==> s[first_index(s, c)] == c,
        forall|j: int| 0 <= j < s.len() && (first_index(s, c) < 0 || j < first_index(s, c)) ==> s[j] != c,
    decreases s.len(),
{
    if s.len() > 0 {
        lemma_first_index(s.drop_first(), c);
        assert forall|j: int| 0 <= j < s.len() && (first_index(s, c) < 0 || j < first_index(s, c)) implies s[j]
            != c by {
            if j > 0 {
                assert(s[j] == s.drop_first()[j - 1]);
            }
        }
    }
}

/// The proxy and io of `instance:<proxy>;<io>`: the prefix is matched
/// without regard to ASCII case, and the io follows the first `;`.
pub open spec fn instance_view(s: Seq<char>) -> Option<(Seq<char>, Seq<char>)> {
    if s.len() >= 9 && eq_ic(s.take(9), "instance:"@) {
        let rest = s.skip(9);
        let k = first_index(rest, ';');
        if k >= 0 {
            Some((rest.take(k), rest.skip(k + 1)))
        } else {
            None
        }
    } else {
        None
    }
}

/// The content of an optional [`InstanceIo`].
pub open spec fn io_view(r: Option<InstanceIo>) -> Option<(Seq<char>, Seq<char>)> {
    match r {
        Some(x) => Some((x.proxy@, x.io@)),
        None => None,
    }
}

impl<'a> InstanceIo<'a> {
    /// Parses `instance:<proxy>;<io>`. Returns `None` for a plain IO name.
    pub fn parse(value: &'a str) -> (r: Option<Self>)
        ensures
            io_view(r) == instance_view(value@),
    {
        let n = value.unicode_len();
        if n < 9 {
            return None;
        }
        let head = value.substring_char(0, 9);
        assert(head@ =~= value@.take(9));
        if !eq_ignore_ascii_case(head, "instance:") {
            return None;
        }
        let rest = value.substring_char(9, n);
        assert(rest@ =~= value@.skip(9));
        let m = rest.unicode_len();
        let mut k: usize = 0;
        proof {
            lemma_first_index(rest@, ';');
        }
        while k < m
            invariant
                k <= m,
                m == rest@.len(),
                rest@ == value@.skip(9),
                value@.len() >= 9,
                eq_ic(value@.take(9), "instance:"@),
                forall|j: int| 0 <= j < k ==> rest@[j] != ';',
            decreases m - k,
        {
            if rest.get_char(k) == ';' {
                proof {
                    lemma_first_index_at(rest@, ';', k as int);
                }
                let proxy = rest.substring_char(0, k);
                let io = rest.substring_char(k + 1, m);
                assert(proxy@ =~= rest@.take(k as int));
                assert(io@ =~= rest@.skip(k + 1));
                assert(instance_view(value@) == Some((rest@.take(k as int), rest@.skip(k + 1))));
                return Some(InstanceIo { proxy, io });
            }
            k = k + 1;
        }
        None
    }

    /// The text of the form, `instance:<proxy>;<io>`.
    pub fn to_string(&self) -> (s: String)
        ensures
            s@ == instance_text(self.proxy@, self.io@),
    {
        instance_string(self.proxy, self.io)
    }
}

/// Where `c` is at `k` and nowhere before, `k` is the first index of `c`.
proof fn lemma_first_index_at(s: Seq<char>, c: char, k: int)
    requires
        0 <= k < s.len(),
        s[k] == c,
        forall|j: int| 0 <= j < k ==> s[j] != c,
    ensures
        first_index(s, c) == k,
    decreases k,
{
    if k > 0 {
        lemma_first_index_at(s.drop_first(), c, k - 1);
    }
}

/// A piece of a connection value holds no ESC.
proof fn lemma_piece_no_esc(v: Seq<char>, i: int)
    ensures
        !piece(split(v, sep_of(v)), i).contains(SEP_ESC),
{
    let sep = sep_of(v);
    let ps = split(v, sep);
    lemma_split_pieces(v, sep);
    if 0 <= i < ps.len() {
        if ps[i].contains(SEP_ESC) {
            let k = choose|k: int| 0 <= k < ps[i].len() && ps[i][k] == SEP_ESC;
            assert(ps[i][k] != sep && v.contains(ps[i][k]));
        }
    }
}

/// The decimal text of a number holds no ESC.
proof fn lemma_dec_int_no_esc(x: int)
    ensures
        !dec_int(x).contains(SEP_ESC),
{
    let d = dec(if x < 0 { -x } else { x } as nat);
    lemma_dec_digits(if x < 0 { -x } else { x } as nat);
    if dec_int(x).contains(SEP_ESC) {
        let k = choose|k: int| 0 <= k < dec_int(x).len() && dec_int(x)[k] == SEP_ESC;
        if x < 0 {
            if k > 0 {
                assert(dec_int(x)[k] == d[k - 1]);
                assert(is_digit(d[k - 1]));
            }
        } else {
            assert(is_digit(d[k]));
        }
    }
}

/// Two pieces joined by a separator.
proof fn lemma_join_two(a: Seq<char>, b: Seq<char>, sep: Seq<char>)
    ensures
        join_with(seq![a, b], sep) == a + sep + b,
{
    let s = seq![a, b];
    assert(s.drop_last() =~= seq![a]);
    assert(join_with(seq![a], sep) == a);
    assert(s.last() == b);
    assert(join_with(s, sep) == join_with(s.drop_last(), sep) + sep + s.last());
}

/// The pieces that the value text of a connection read from `value` is
/// made of: the target, the input, the pieces of the parameters, the delay
/// and the fire limit; none holds ESC, and joined with ESC they give the text.
proof fn lemma_value_pieces(output: Seq<char>, value: Seq<char>)
    ensures
        ({
            let c = conn_of(output, value);
            let l = seq![c.target, c.input] + split(c.params, SEP_ESC) + seq![c.delay, dec_int(c.fire_limit as int)];
            &&& join_with(l, seq![SEP_ESC]) == value_text(c)
            &&& forall|i: int| 0 <= i < l.len() ==> !(#[trigger] l[i]).contains(SEP_ESC)
        }),
{
    let c = conn_of(output, value);
    let e = seq![SEP_ESC];
    let sep = sep_of(value);
    let ps = split(value, sep);
    lemma_piece_no_esc(value, 0);
    lemma_piece_no_esc(value, 1);
    lemma_piece_no_esc(value, ps.len() - 2);
    let f = dec_int(c.fire_limit as int);
    lemma_dec_int_no_esc(c.fire_limit as int);
    let p = split(c.params, SEP_ESC);
    lemma_join_split(c.params, SEP_ESC);
    lemma_split_pieces(c.params, SEP_ESC);
    let l = seq![c.target, c.input] + p + seq![c.delay, f];
    lemma_join_two(c.target, c.input, e);
    lemma_join_two(c.delay, f, e);
    lemma_join_concat(seq![c.target, c.input], p, e);
    lemma_join_concat(seq![c.target, c.input] + p, seq![c.delay, f], e);
    assert(join_with(l, e) =~= value_text(c));
    assert forall|i: int| 0 <= i < l.len() implies !(#[trigger] l[i]).contains(SEP_ESC) by {
        if i == 0 {
            assert(l[i] == c.target);
        } else if i == 1 {
            assert(l[i] == c.input);
        } else if i < 2 + p.len() {
            let q = p[i - 2];
            assert(l[i] == q);
            if q.contains(SEP_ESC) {
                let k = choose|k: int| 0 <= k < q.len() && q[k] == SEP_ESC;
                assert(p[i - 2][k] != SEP_ESC);
            }
        } else if i == 2 + p.len() {
            assert(l[i] == c.delay);
            if ps.len() >= 5 {
                assert(c.delay == piece(ps, ps.len() - 2));
            } else {
                assert(c.delay =~= Seq::<char>::empty());
            }
        } else {
            assert(l[i] == f);
        }
    }
}

/// A connection read from a value reads back unchanged from the value it
/// writes: reading a value and writing it settles it after one pass.
pub proof fn lemma_value_round_trip(output: Seq<char>, value: Seq<char>)
    ensures
        conn_of(output, value_text(conn_of(output, value))) == conn_of(output, value),
{
    let c = conn_of(output, value);
    let f = dec_int(c.fire_limit as int);
    let p = split(c.params, SEP_ESC);
    let l = seq![c.target, c.input] + p + seq![c.delay, f];
    lemma_value_pieces(output, value);
    lemma_join_split(c.params, SEP_ESC);
    lemma_split_join(l, SEP_ESC);
    let vt = value_text(c);
    assert(vt[c.target.len() as int] == SEP_ESC);
    assert(sep_of(vt) == SEP_ESC);
    let n = l.len() as int;
    assert(l.subrange(2, n - 2) =~= p);
    assert(l[0] == c.target);
    assert(l[1] == c.input);
    assert(l[n - 2] == c.delay);
    assert(l[n - 1] == f);
    lemma_dec_int_reads_back(c.fire_limit as int, i32::MIN as int, i32::MAX as int);
    assert(fire_limit_of(f) == c.fire_limit);
    assert(conn_of(output, vt) =~= c);
}


/// Whether connections with the same output stand next to each other.
pub open spec fn grouped(cs: Seq<ConnView>) -> bool {
    forall|i: int, j: int, k: int|
        0 <= i < j < k < cs.len() && #[trigger] cs[i].output == #[trigger] cs[k].output ==> #[trigger] cs[j].output
            == cs[i].output
}

/// Whether a connection is written without the separator of repeated keys
/// and reads back from its value as itself.
pub open spec fn writable(c: ConnView) -> bool {
    !value_text(c).contains(REPEATED_KEY_SEP) && conn_of(c.output, value_text(c)) == c
}

/// Whether some connection of `cs` has the output `o`.
pub open spec fn has_output(cs: Seq<ConnView>, o: Seq<char>) -> bool {
    exists|j: int| 0 <= j < cs.len() && #[trigger] cs[j].output == o
}

/// Splitting after a separator adds the piece after it.
proof fn lemma_split_after(a: Seq<char>, b: Seq<char>, sep: char)
    requires
        !b.contains(sep),
    ensures
        split(a + seq![sep] + b, sep) == split(a, sep).push(b),
{
    let a1 = a + seq![sep];
    assert(a1.drop_last() =~= a);
    lemma_split_state_plain(a1, b, sep);
    assert(split_state(a1, sep) == (split_state(a, sep).0.push(split_state(a, sep).1), Seq::<char>::empty()));
    assert(Seq::<char>::empty() + b =~= b);
}

/// Splitting a text without the separator gives the text alone.
proof fn lemma_split_plain(b: Seq<char>, sep: char)
    requires
        !b.contains(sep),
    ensures
        split(b, sep) == seq![b],
{
    lemma_split_state_plain(Seq::empty(), b, sep);
    assert(Seq::<char>::empty() + b =~= b);
    assert(split_state(Seq::<char>::empty(), sep) == (Seq::<Seq<char>>::empty(), Seq::<char>::empty()));
}

/// Adding the value of a connection under an output that has no pair yet.
proof fn lemma_add_new(pd: Pairs, o: Seq<char>, vt: Seq<char>)
    requires
        first_key(pd, o) < 0,
        !vt.contains(REPEATED_KEY_SEP),
    ensures
        conns_of_pairs(add_str(pd, o, vt)) == conns_of_pairs(pd).push(conn_of(o, vt)),
        first_key(add_str(pd, o, vt), o) == add_str(pd, o, vt).len() - 1,
        forall|o2: Seq<char>| o2 != o && first_key(pd, o2) < 0 ==> #[trigger] first_key(add_str(pd, o, vt), o2) < 0,
{
    let p = add_str(pd, o, vt);
    assert(p == pd.push((o, vt)));
    assert(p.drop_last() =~= pd);
    lemma_split_plain(vt, REPEATED_KEY_SEP);
    let one = seq![vt];
    assert(one.drop_last() =~= Seq::<Seq<char>>::empty());
    assert(conns_of_parts(o, one.drop_last()) == Seq::<ConnView>::empty());
    assert(conns_of_parts(o, one) =~= seq![conn_of(o, vt)]);
    assert(conns_of_pairs(p) == conns_of_pairs(pd) + conns_of_parts(o, split(vt, REPEATED_KEY_SEP)));
    assert(conns_of_pairs(p) =~= conns_of_pairs(pd).push(conn_of(o, vt)));
}

/// Adding the value of a connection under the output of the last pair.
proof fn lemma_add_last(pd: Pairs, o: Seq<char>, vt: Seq<char>)
    requires
        pd.len() > 0,
        first_key(pd, o) == pd.len() - 1,
        !vt.contains(REPEATED_KEY_SEP),
    ensures
        conns_of_pairs(add_str(pd, o, vt)) == conns_of_pairs(pd).push(conn_of(o, vt)),
        first_key(add_str(pd, o, vt), o) == add_str(pd, o, vt).len() - 1,
        forall|o2: Seq<char>| o2 != o && first_key(pd, o2) < 0 ==> #[trigger] first_key(add_str(pd, o, vt), o2) < 0,
{
    let p = add_str(pd, o, vt);
    let w = pd.last().1;
    lemma_first_key(pd, o);
    lemma_first_key(pd.drop_last(), o);
    assert(pd.last().0 == o);
    assert(p == pd.update(pd.len() - 1, (o, w + seq![REPEATED_KEY_SEP] + vt)));
    assert(p.drop_last() =~= pd.drop_last());
    assert(p.last() == (o, w + seq![REPEATED_KEY_SEP] + vt));
    lemma_split_after(w, vt, REPEATED_KEY_SEP);
    let ws = split(w, REPEATED_KEY_SEP);
    assert(ws.push(vt).drop_last() =~= ws);
    assert(conns_of_parts(o, ws.push(vt)) == conns_of_parts(o, ws).push(conn_of(o, vt)));
    assert(conns_of_pairs(pd) == conns_of_pairs(pd.drop_last()) + conns_of_parts(o, ws));
    assert(conns_of_pairs(p) == conns_of_pairs(p.drop_last()) + conns_of_parts(
        o,
        split(w + seq![REPEATED_KEY_SEP] + vt, REPEATED_KEY_SEP),
    ));
    assert(conns_of_pairs(p) =~= conns_of_pairs(pd).push(conn_of(o, vt)));
    assert(first_key(pd.drop_last(), o) < 0);
    assert forall|o2: Seq<char>| o2 != o && first_key(pd, o2) < 0 implies #[trigger] first_key(p, o2) < 0 by {
        assert(first_key(pd.drop_last(), o2) < 0);
    }
}

proof fn lemma_pairs_of_conns(cs: Seq<ConnView>)
    requires
        grouped(cs),
        forall|i: int| 0 <= i < cs.len() ==> writable(#[trigger] cs[i]),
    ensures
        conns_of_pairs(pairs_of_conns(cs)) == cs,
        cs.len() > 0 ==> pairs_of_conns(cs).len() > 0 && first_key(pairs_of_conns(cs), cs.last().output)
            == pairs_of_conns(cs).len() - 1,
        forall|o: Seq<char>| !has_output(cs, o) ==> #[trigger] first_key(pairs_of_conns(cs), o) < 0,
    decreases cs.len(),
{
    if cs.len() == 0 {
        assert forall|o: Seq<char>| !has_output(cs, o) implies #[trigger] first_key(pairs_of_conns(cs), o) < 0 by {}
    } else {
        let d = cs.drop_last();
        let c = cs.last();
        let o = c.output;
        let vt = value_text(c);
        assert(writable(cs[cs.len() - 1]));
        assert forall|i: int, j: int, k: int|
            0 <= i < j < k < d.len() && #[trigger] d[i].output == #[trigger] d[k].output implies #[trigger] d[j].output
                == d[i].output by {
            assert(d[i] == cs[i] && d[j] == cs[j] && d[k] == cs[k]);
        }
        assert forall|i: int| 0 <= i < d.len() implies writable(#[trigger] d[i]) by {
            assert(d[i] == cs[i]);
            assert(writable(cs[i]));
        }
        lemma_pairs_of_conns(d);
        let pd = pairs_of_conns(d);
        let p = pairs_of_conns(cs);
        assert(p == add_str(pd, o, vt));
        if has_output(d, o) {
            let j = choose|j: int| 0 <= j < d.len() && #[trigger] d[j].output == o;
            let n = d.len() - 1;
            if j < n {
                assert(cs[j].output == cs[cs.len() - 1].output);
                assert(cs[n].output == cs[j].output);
            }
            assert(d.last().output == o);
            lemma_add_last(pd, o, vt);
        } else {
            lemma_add_new(pd, o, vt);
        }
        assert(cs =~= d.push(c));
        assert forall|o2: Seq<char>| !has_output(cs, o2) implies #[trigger] first_key(p, o2) < 0 by {
            if has_output(d, o2) {
                let j2 = choose|j2: int| 0 <= j2 < d.len() && #[trigger] d[j2].output == o2;
                assert(cs[j2] == d[j2]);
            }
            assert(cs[cs.len() - 1].output == o);
            assert(first_key(pd, o2) < 0);
        }
    }
}

/// Writing connections as the pairs of a `connections` block and reading
/// them back gives the same connections, where those with the same output
/// stand together and each one is written without the separator of
/// repeated keys and reads back from its value as itself.
pub proof fn lemma_key_values_round_trip(cs: Seq<ConnView>)
    requires
        grouped(cs),
        forall|i: int| 0 <= i < cs.len() ==> writable(#[trigger] cs[i]),
    ensures
        conns_of_pairs(pairs_of_conns(cs)) == cs,
        cs.len() > 0 ==> pairs_of_conns(cs).len() > 0,
{
    lemma_pairs_of_conns(cs);
}

/// The decimal text of a number holds neither ESC nor the separator of
/// repeated keys.
proof fn lemma_dec_int_plain(x: int)
    ensures
        !dec_int(x).contains(SEP_ESC),
        !dec_int(x).contains(REPEATED_KEY_SEP),
{
    lemma_dec_int_no_esc(x);
    let d = dec(if x < 0 { -x } else { x } as nat);
    lemma_dec_digits(if x < 0 { -x } else { x } as nat);
    if dec_int(x).contains(REPEATED_KEY_SEP) {
        let k = choose|k: int| 0 <= k < dec_int(x).len() && dec_int(x)[k] == REPEATED_KEY_SEP;
        if x < 0 {
            if k > 0 {
                assert(dec_int(x)[k] == d[k - 1]);
                assert(is_digit(d[k - 1]));
            }
        } else {
            assert(is_digit(d[k]));
        }
    }
}

/// Whether the fields of a connection allow it to be written as a pair
/// and read back: its target, input and delay hold no ESC (the parameters
/// may), and none of its fields holds the separator of repeated keys.
pub open spec fn fields_writable(c: ConnView) -> bool {
    &&& !c.target.contains(SEP_ESC)
    &&& !c.input.contains(SEP_ESC)
    &&& !c.delay.contains(SEP_ESC)
    &&& !c.target.contains(REPEATED_KEY_SEP)
    &&& !c.input.contains(REPEATED_KEY_SEP)
    &&& !c.params.contains(REPEATED_KEY_SEP)
    &&& !c.delay.contains(REPEATED_KEY_SEP)
}

/// A connection whose target, input and delay hold no ESC reads back from
/// the value it writes as itself.
pub proof fn lemma_fields_round_trip(c: ConnView)
    requires
        !c.target.contains(SEP_ESC),
        !c.input.contains(SEP_ESC),
        !c.delay.contains(SEP_ESC),
    ensures
        conn_of(c.output, value_text(c)) == c,
{
    let e = seq![SEP_ESC];
    let f = dec_int(c.fire_limit as int);
    lemma_dec_int_no_esc(c.fire_limit as int);
    let p = split(c.params, SEP_ESC);
    lemma_join_split(c.params, SEP_ESC);
    lemma_split_pieces(c.params, SEP_ESC);
    let l = seq![c.target, c.input] + p + seq![c.delay, f];
    lemma_join_two(c.target, c.input, e);
    lemma_join_two(c.delay, f, e);
    lemma_join_concat(seq![c.target, c.input], p, e);
    lemma_join_concat(seq![c.target, c.input] + p, seq![c.delay, f], e);
    assert(join_with(l, e) =~= value_text(c));
    assert forall|i: int| 0 <= i < l.len() implies !(#[trigger] l[i]).contains(SEP_ESC) by {
        if i == 0 {
            assert(l[i] == c.target);
        } else if i == 1 {
            assert(l[i] == c.input);
        } else if i < 2 + p.len() {
            let q = p[i - 2];
            assert(l[i] == q);
            if q.contains(SEP_ESC) {
                let k = choose|k: int| 0 <= k < q.len() && q[k] == SEP_ESC;
                assert(p[i - 2][k] != SEP_ESC);
            }
        } else if i == 2 + p.len() {
            assert(l[i] == c.delay);
        } else {
            assert(l[i] == f);
        }
    }
    lemma_split_join(l, SEP_ESC);
    let vt = value_text(c);
    assert(vt[c.target.len() as int] == SEP_ESC);
    assert(sep_of(vt) == SEP_ESC);
    let n = l.len() as int;
    assert(l.subrange(2, n - 2) =~= p);
    assert(l[0] == c.target);
    assert(l[1] == c.input);
    assert(l[n - 2] == c.delay);
    assert(l[n - 1] == f);
    lemma_dec_int_reads_back(c.fire_limit as int, i32::MIN as int, i32::MAX as int);
    assert(fire_limit_of(f) == c.fire_limit);
    assert(conn_of(c.output, vt) =~= c);
}

/// A connection whose fields allow it is written and read back unchanged
/// (`writable`).
pub proof fn lemma_fields_writable(c: ConnView)
    requires
        fields_writable(c),
    ensures
        writable(c),
{
    lemma_fields_round_trip(c);
    lemma_dec_int_plain(c.fire_limit as int);
    let vt = value_text(c);
    if vt.contains(REPEATED_KEY_SEP) {
        let k = choose|k: int| 0 <= k < vt.len() && vt[k] == REPEATED_KEY_SEP;
        let a = c.target.len() as int;
        let b = a + 1 + c.input.len();
        let d = b + 1 + c.params.len();
        let g = d + 1 + c.delay.len();
        if k < a {
            assert(c.target[k] == vt[k]);
        } else if k == a || k == b || k == d || k == g {
        } else if k < b {
            assert(c.input[k - a - 1] == vt[k]);
        } else if k < d {
            assert(c.params[k - b - 1] == vt[k]);
        } else if k < g {
            assert(c.delay[k - d - 1] == vt[k]);
        } else {
            assert(dec_int(c.fire_limit as int)[k - g - 1] == vt[k]);
        }
    }
}

/// Connections whose outputs stand together and whose fields allow them to
/// be written round-trip through the pairs of a `connections` block: the
/// pairs give them back, and there are pairs wherever there are
/// connections.
pub proof fn lemma_fields_key_values_round_trip(cs: Seq<ConnView>)
    requires
        grouped(cs),
        forall|i: int| 0 <= i < cs.len() ==> fields_writable(#[trigger] cs[i]),
    ensures
        conns_of_pairs(pairs_of_conns(cs)) == cs,
        cs.len() > 0 ==> pairs_of_conns(cs).len() > 0,
{
    assert forall|i: int| 0 <= i < cs.len() implies writable(#[trigger] cs[i]) by {
        lemma_fields_writable(cs[i]);
    }
    lemma_key_values_round_trip(cs);
}

} // verus!
