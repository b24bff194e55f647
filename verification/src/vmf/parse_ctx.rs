//! Parser context for recording non-fatal problems and defaults while the
//! typed structures of a map file are read from its blocks.

use vstd::prelude::*;
use crate::text::{dec, push_char, u64_to_string};

verus! {

/// Maximum number of warnings stored in a [`ParseCtx`] before further ones
/// are only counted.
pub const MAX_WARNINGS: usize = 1000;

/// Texts joined with `sep` between consecutive ones (`[&str]::join`).
pub open spec fn join_with(parts: Seq<Seq<char>>, sep: Seq<char>) -> Seq<char>
    decreases parts.len(),
{
    if parts.len() == 0 {
        Seq::empty()
    } else if parts.len() == 1 {
        parts[0]
    } else {
        join_with(parts.drop_last(), sep) + sep + parts.last()
    }
}

/// The texts of a list of strings.
pub open spec fn texts(v: Seq<String>) -> Seq<Seq<char>> {
    v.map_values(|s: String| s@)
}

/// Joins `parts` with `sep` between consecutive ones.
pub fn join_strings(parts: &Vec<String>, sep: &str) -> (r: String)
    ensures
        r@ == join_with(texts(parts@), sep@),
{
    let mut r = String::new();
    let mut i: usize = 0;
    let ghost ps = texts(parts@);
    while i < parts.len()
        invariant
            i <= parts@.len(),
            ps == texts(parts@),
            r@ == join_with(ps.take(i as int), sep@),
        decreases parts.len() - i,
    {
        assert(ps.take(i + 1).drop_last() =~= ps.take(i as int));
        if i > 0 {
            r.append(sep);
        } else {
            assert(ps.take(1) =~= seq![ps[0]]);
        }
        r.append(parts[i].as_str());
        i = i + 1;
    }
    assert(ps.take(parts@.len() as int) =~= ps);
    r
}

/// What a [`ParseCtx`] holds: the path of the block being read, the
/// warnings recorded so far, and the number of warnings dropped.
pub struct CtxView {
    pub path: Seq<Seq<char>>,
    pub warnings: Seq<Seq<char>>,
    pub suppressed: nat,
}

/// `x + 1`, or `x` where that does not fit in a `usize`.
pub open spec fn bump(x: nat) -> nat {
    if x < usize::MAX {
        x + 1
    } else {
        x
    }
}

/// The text of a warning about `msg` recorded at `path`.
pub open spec fn warning_text(path: Seq<Seq<char>>, msg: Seq<char>) -> Seq<char> {
    join_with(path, seq!['/']) + seq![':', ' '] + msg
}

/// The context after a warning about `msg`: it is recorded while fewer
/// than [`MAX_WARNINGS`] are, and counted as dropped after that.
pub open spec fn warned(c: CtxView, msg: Seq<char>) -> CtxView {
    if c.warnings.len() < MAX_WARNINGS {
        CtxView { warnings: c.warnings.push(warning_text(c.path, msg)), ..c }
    } else {
        CtxView { suppressed: bump(c.suppressed), ..c }
    }
}

/// The message of a missing key replaced by a default.
pub open spec fn missing_msg(key: Seq<char>, default: Seq<char>) -> Seq<char> {
    "missing '"@ + key + "', using '"@ + default + "'"@
}

/// The message of a value that could not be read, replaced by a default.
pub open spec fn unparsable_msg(key: Seq<char>, value: Seq<char>, default: Seq<char>) -> Seq<char> {
    "key '"@ + key + "' has unparsable value '"@ + value + "', using '"@ + default + "'"@
}

/// The path segment of the `index`-th block of a repeated kind.
pub open spec fn indexed_segment(segment: Seq<char>, index: nat) -> Seq<char> {
    segment + seq!['['] + dec(index) + seq![']']
}

/// Parsing context tracking the current block hierarchy and diagnostic
/// warnings.
#[derive(Debug, PartialEq, Eq)]
pub struct ParseCtx {
    /// Path segments of the block being parsed, e.g. `["world", "solid[3]", "side[1]"]`.
    path: Vec<String>,
    /// Warnings recorded during parsing, prefixed with their block path.
    warnings: Vec<String>,
    /// Number of warnings suppressed after reaching [`MAX_WARNINGS`].
    suppressed: usize,
}

impl View for ParseCtx {
    type V = CtxView;

    closed spec fn view(&self) -> CtxView {
        CtxView { path: texts(self.path@), warnings: texts(self.warnings@), suppressed: self.suppressed as nat }
    }
}

impl ParseCtx {
    /// A context never keeps more than [`MAX_WARNINGS`] warnings.
    #[verifier::type_invariant]
    spec fn kept_bounded(self) -> bool {
        self.warnings@.len() <= MAX_WARNINGS
    }

    /// A context at the top level with no warnings.
    pub fn new() -> (c: Self)
        ensures
            c@ == (CtxView { path: Seq::empty(), warnings: Seq::empty(), suppressed: 0 }),
    {
        let c = ParseCtx { path: Vec::new(), warnings: Vec::new(), suppressed: 0 };
        assert(texts(c.path@) =~= Seq::<Seq<char>>::empty());
        assert(texts(c.warnings@) =~= Seq::<Seq<char>>::empty());
        c
    }

    /// The warnings recorded, in order.
    pub fn warnings(&self) -> (r: &Vec<String>)
        ensures
            texts(r@) == self@.warnings,
            r@.len() <= MAX_WARNINGS,
    {
        proof {
            use_type_invariant(self);
        }
        &self.warnings
    }

    /// The number of warnings dropped after [`MAX_WARNINGS`].
    pub fn suppressed(&self) -> (r: usize)
        ensures
            r == self@.suppressed,
    {
        self.suppressed
    }

    /// Gives up the context for its warnings and the count of dropped ones.
    pub fn into_warnings(self) -> (r: (Vec<String>, usize))
        ensures
            texts(r.0@) == self@.warnings,
            r.0@.len() <= MAX_WARNINGS,
            r.1 == self@.suppressed,
    {
        proof {
            use_type_invariant(&self);
        }
        (self.warnings, self.suppressed)
    }

    /// Enters a nested block. Must be paired with [`ParseCtx::leave`].
    pub fn enter(&mut self, segment: &str)
        ensures
            final(self)@ == (CtxView { path: old(self)@.path.push(segment@), ..old(self)@ }),
    {
        proof {
            use_type_invariant(&*self);
        }
        let mut p: Vec<String> = Vec::new();
        std::mem::swap(&mut p, &mut self.path);
        p.push(segment.to_string());
        self.path = p;
        assert(texts(self.path@) =~= texts(old(self).path@).push(segment@));
    }

    /// Enters the `index`-th nested block of a repeated kind, e.g. `side[2]`.
    pub fn enter_indexed(&mut self, segment: &str, index: usize)
        ensures
            final(self)@ == (CtxView {
                path: old(self)@.path.push(indexed_segment(segment@, index as nat)),
                ..old(self)@
            }),
    {
        proof {
            use_type_invariant(&*self);
        }
        let mut s = segment.to_string();
        push_char(&mut s, '[');
        let n = u64_to_string(index as u64);
        s.append(n.as_str());
        push_char(&mut s, ']');
        assert(s@ =~= indexed_segment(segment@, index as nat));
        let mut p: Vec<String> = Vec::new();
        std::mem::swap(&mut p, &mut self.path);
        p.push(s);
        self.path = p;
        assert(texts(self.path@) =~= texts(old(self).path@).push(indexed_segment(segment@, index as nat)));
    }

    /// Leaves the current block.
    pub fn leave(&mut self)
        ensures
            final(self)@ == (CtxView {
                path: if old(self)@.path.len() > 0 {
                    old(self)@.path.drop_last()
                } else {
                    old(self)@.path
                },
                ..old(self)@
            }),
    {
        proof {
            use_type_invariant(&*self);
        }
        let ghost p0 = self.path@;
        let mut p: Vec<String> = Vec::new();
        std::mem::swap(&mut p, &mut self.path);
        let _ = p.pop();
        self.path = p;
        proof {
            if p0.len() > 0 {
                assert(texts(self.path@) =~= texts(p0).drop_last());
            }
        }
    }

    /// Records a problem at the current path, up to [`MAX_WARNINGS`].
    pub fn warn(&mut self, msg: &str)
        ensures
            final(self)@ == warned(old(self)@, msg@),
    {
        proof {
            use_type_invariant(&*self);
        }
        if self.warnings.len() < MAX_WARNINGS {
            let mut w = join_strings(&self.path, "/");
            proof {
                reveal_strlit("/");
                assert("/"@ =~= seq!['/']);
            }
            w.append(": ");
            proof {
                reveal_strlit(": ");
            }
            w.append(msg);
            assert(w@ =~= warning_text(texts(self.path@), msg@));
            let mut ws: Vec<String> = Vec::new();
            std::mem::swap(&mut ws, &mut self.warnings);
            ws.push(w);
            self.warnings = ws;
            assert(texts(self.warnings@) =~= texts(old(self).warnings@).push(w@));
        } else {
            self.suppressed = self.suppressed.saturating_add(1);
        }
    }

    /// Records a missing key that was replaced by `default`.
    pub fn warn_missing(&mut self, key: &str, default: &str)
        ensures
            final(self)@ == warned(old(self)@, missing_msg(key@, default@)),
    {
        let mut m = String::new();
        m.append("missing '");
        m.append(key);
        m.append("', using '");
        m.append(default);
        m.append("'");
        assert(m@ =~= missing_msg(key@, default@));
        self.warn(m.as_str());
    }

    /// Records a value that could not be parsed and was replaced by `default`.
    pub fn warn_unparsable(&mut self, key: &str, value: &str, default: &str)
        ensures
            final(self)@ == warned(old(self)@, unparsable_msg(key@, value@, default@)),
    {
        let mut m = String::new();
        m.append("key '");
        m.append(key);
        m.append("' has unparsable value '");
        m.append(value);
        m.append("', using '");
        m.append(default);
        m.append("'");
        assert(m@ =~= unparsable_msg(key@, value@, default@));
        self.warn(m.as_str());
    }
}

impl Default for ParseCtx {
    fn default() -> (c: Self)
        ensures
            c@ == (CtxView { path: Seq::empty(), warnings: Seq::empty(), suppressed: 0 }),
    {
        ParseCtx::new()
    }
}

} // verus!
