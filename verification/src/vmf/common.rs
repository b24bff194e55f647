//! The editor data that entities, solids and groups carry.

use vstd::prelude::*;
use indexmap::IndexMap;
use crate::kv::ser::tabs;
use crate::ordmap::str_entries;
use crate::text::{dec_int, i64_to_string, str_eq};
use crate::vmf::block::{BlockTree, Extras, REPEATED_KEY_SEP, VmfBlock, blocks_text, blocks_tree, pairs_text, split,
    tab_string, next_indent, next_level};
use crate::vmf::parse_ctx::{CtxView, ParseCtx};
use crate::vmf::typed::{head_text, line_pair, pair_line, tail_text, write_head, write_pair, write_tail};
use crate::vmf::utils::{multi_ctx, opt_parse_ctx, FieldValue, Pairs, To01String, bool_text, parsed_parts, parts_checked, repeat_checked,
    take_key, take_multi_parse, take_opt_parse, taken, bad_part_msg, parse_or_ctx};
use crate::vmf::parse_ctx::warned;

verus! {

broadcast use crate::vmf::utils::group_ctx_paths;

/// A type written as a block of a map file.
pub trait VmfSerializable {
    /// The text of the value as a block at `indent_level`.
    fn to_vmf_string(&self, indent_level: usize) -> String;
}

/// What the unmodelled part of a structure holds: its pairs and blocks.
pub open spec fn extras_view(e: Extras) -> (Pairs, Seq<BlockTree>) {
    (str_entries(e.key_values), blocks_tree(e.blocks@))
}

/// Represents the editor data of an entity or solid.
#[derive(Debug, PartialEq)]
pub struct Editor {
    /// The color of the object in the editor, in "R G B" format.
    pub color: String,
    /// The IDs of the visgroups this object is in, if any.
    pub visgroup_ids: Vec<i32>,
    /// The ID of the group this object is in, if any.
    pub group_id: Option<i32>,
    /// Whether the object is shown in the visgroup.
    pub visgroup_shown: bool,
    /// Whether the object should automatically be shown in the visgroup.
    pub visgroup_auto_shown: bool,
    /// Comments associated with the object, if any.
    pub comments: Option<String>,
    /// The logical position of the object in the editor, in "[x y]" format.
    pub logical_pos: Option<String>,
    /// Keys and blocks this struct does not model.
    pub extra: Extras,
}

/// The content of an [`Editor`].
pub struct EditorView {
    pub color: Seq<char>,
    pub visgroup_ids: Seq<i32>,
    pub group_id: Option<i32>,
    pub visgroup_shown: bool,
    pub visgroup_auto_shown: bool,
    pub comments: Option<Seq<char>>,
    pub logical_pos: Option<Seq<char>>,
    pub extra: (Pairs, Seq<BlockTree>),
}

/// The text of an optional string.
pub open spec fn opt_view(o: Option<String>) -> Option<Seq<char>> {
    match o {
        Some(s) => Some(s@),
        None => None,
    }
}

impl View for Editor {
    type V = EditorView;

    open spec fn view(&self) -> EditorView {
        EditorView {
            color: self.color@,
            visgroup_ids: self.visgroup_ids@,
            group_id: self.group_id,
            visgroup_shown: self.visgroup_shown,
            visgroup_auto_shown: self.visgroup_auto_shown,
            comments: opt_view(self.comments),
            logical_pos: opt_view(self.logical_pos),
            extra: extras_view(self.extra),
        }
    }
}

/// The default color of editor objects.
pub open spec fn white() -> Seq<char> {
    "255 255 255"@
}

/// The editor data of an object without an `editor` block.
pub open spec fn default_editor() -> EditorView {
    EditorView {
        color: white(),
        visgroup_ids: Seq::empty(),
        group_id: None,
        visgroup_shown: true,
        visgroup_auto_shown: true,
        comments: None,
        logical_pos: None,
        extra: (Seq::empty(), Seq::empty()),
    }
}

/// The context after reading an `editor` block: the warnings about its
/// visgroup IDs and its group ID that cannot be read.
pub open spec fn editor_ctx(c: CtxView, b: BlockTree) -> CtxView {
    let (_, k1) = taken(b.kvs, "color"@);
    let (vg, k2) = taken(k1, "visgroupid"@);
    let (gid, _) = taken(k2, "groupid"@);
    opt_parse_ctx::<i32>(multi_ctx::<i32>(c, "visgroupid"@, vg), "groupid"@, gid)
}

/// The editor data read from an `editor` block: the color (white where
/// missing), each value of `visgroupid` that is an `i32`, `groupid` where it
/// is one, the two visibility flags (set only by `1`), the comments and the
/// logical position; the other pairs and the blocks are kept.
#[verifier::opaque]
pub open spec fn editor_of(b: BlockTree) -> EditorView {
    let (color, k1) = taken(b.kvs, "color"@);
    let (vg, k2) = taken(k1, "visgroupid"@);
    let (gid, k3) = taken(k2, "groupid"@);
    let (shown, k4) = taken(k3, "visgroupshown"@);
    let (auto, k5) = taken(k4, "visgroupautoshown"@);
    let (comments, k6) = taken(k5, "comments"@);
    let (pos, k7) = taken(k6, "logicalpos"@);
    EditorView {
        color: match color {
            Some(c) => c,
            None => white(),
        },
        visgroup_ids: match vg {
            Some(v) => parsed_parts::<i32>(split(v, REPEATED_KEY_SEP)),
            None => Seq::empty(),
        },
        group_id: match gid {
            Some(v) => <i32 as FieldValue>::parse_spec(v),
            None => None,
        },
        visgroup_shown: shown == Some(seq!['1']),
        visgroup_auto_shown: auto == Some(seq!['1']),
        comments,
        logical_pos: pos,
        extra: (k7, b.blocks),
    }
}

/// The lines of the visgroup ids.
pub open spec fn visgroup_lines(level: nat, ids: Seq<i32>) -> Seq<char>
    decreases ids.len(),
{
    if ids.len() == 0 {
        Seq::empty()
    } else {
        visgroup_lines(level, ids.drop_last()) + line_pair(level, "visgroupid"@, dec_int(ids.last() as int))
    }
}

/// The line of an optional value after `indent`.
pub open spec fn opt_line_at(indent: Seq<char>, key: Seq<char>, v: Option<Seq<char>>) -> Seq<char> {
    match v {
        Some(x) => pair_line(indent, key, x),
        None => Seq::empty(),
    }
}

/// The line of an optional value.
pub open spec fn opt_line(level: nat, key: Seq<char>, v: Option<Seq<char>>) -> Seq<char> {
    opt_line_at(tabs(level), key, v)
}

/// The text of the editor data as a block at `level`.
#[verifier::opaque]
pub open spec fn editor_text(e: EditorView, level: nat) -> Seq<char> {
    head_text(level, "editor"@) + line_pair(level, "color"@, e.color) + visgroup_lines(level, e.visgroup_ids)
        + opt_line(
        level,
        "groupid"@,
        match e.group_id {
            Some(g) => Some(dec_int(g as int)),
            None => None,
        },
    ) + line_pair(level, "visgroupshown"@, bool_text(e.visgroup_shown)) + line_pair(
        level,
        "visgroupautoshown"@,
        bool_text(e.visgroup_auto_shown),
    ) + opt_line(level, "comments"@, e.comments) + opt_line(level, "logicalpos"@, e.logical_pos) + pairs_text(
        tabs(next_level(level)),
        e.extra.0,
    ) + blocks_text(e.extra.1, next_level(level)) + tail_text(level)
}

/// Writes the line of an optional value.
pub fn write_opt(out: &mut String, indent: &str, key: &str, v: &Option<String>)
    ensures
        final(out)@ == old(out)@ + opt_line_at(indent@, key@, opt_view(*v)),
{
    match v {
        Some(x) => write_pair(out, indent, key, x.as_str()),
        None => {
            assert(out@ =~= old(out)@ + Seq::<char>::empty());
        },
    }
}

impl Editor {
    /// Editor data of an object without an `editor` block.
    pub fn new() -> (e: Self)
        ensures
            e@ == default_editor(),
    {
        let e = Editor {
            color: String::from_str("255 255 255"),
            visgroup_ids: Vec::new(),
            group_id: None,
            visgroup_shown: true,
            visgroup_auto_shown: true,
            comments: None,
            logical_pos: None,
            extra: Extras::new(),
        };
        assert(e@.visgroup_ids =~= Seq::<i32>::empty());
        assert(e@.extra.0 =~= Seq::<(Seq<char>, Seq<char>)>::empty());
        assert(e@.extra.1 =~= Seq::<BlockTree>::empty());
        e
    }

    /// Puts the object into a visgroup. Returns false if it was already in it.
    pub fn join_visgroup(&mut self, id: i32) -> (r: bool)
        ensures
            r == !old(self).visgroup_ids@.contains(id),
            r ==> final(self)@ == (EditorView { visgroup_ids: old(self)@.visgroup_ids.push(id), ..old(self)@ }),
            !r ==> final(self)@ == old(self)@,
    {
        let mut i: usize = 0;
        while i < self.visgroup_ids.len()
            invariant
                i <= self.visgroup_ids@.len(),
                forall|j: int| 0 <= j < i ==> self.visgroup_ids@[j] != id,
            decreases self.visgroup_ids.len() - i,
        {
            if self.visgroup_ids[i] == id {
                assert(self.visgroup_ids@[i as int] == id);
                return false;
            }
            i = i + 1;
        }
        self.visgroup_ids.push(id);
        true
    }

    /// Takes the object out of a visgroup. Returns false if it was not in it.
    pub fn leave_visgroup(&mut self, id: i32) -> (r: bool)
        ensures
            final(self)@ == (EditorView {
                visgroup_ids: old(self)@.visgroup_ids.filter(|x: i32| x != id),
                ..old(self)@
            }),
            r == (final(self)@.visgroup_ids.len() != old(self)@.visgroup_ids.len()),
    {
        let ghost ids = self.visgroup_ids@;
        let mut kept: Vec<i32> = Vec::new();
        let mut i: usize = 0;
        assert(ids.take(0).filter(|x: i32| x != id) =~= kept@);
        while i < self.visgroup_ids.len()
            invariant
                i <= ids.len(),
                ids == self.visgroup_ids@,
                kept@ == ids.take(i as int).filter(|x: i32| x != id),
            decreases self.visgroup_ids.len() - i,
        {
            let x = self.visgroup_ids[i];
            assert(ids.take(i + 1).drop_last() =~= ids.take(i as int));
            if x != id {
                kept.push(x);
            }
            proof {
                reveal(Seq::filter);
            }
            i = i + 1;
        }
        assert(ids.take(ids.len() as int) =~= ids);
        let before = self.visgroup_ids.len();
        self.visgroup_ids = kept;
        before != self.visgroup_ids.len()
    }

    /// Reads the editor data of an `editor` block.
    pub fn from_block(block: VmfBlock, ctx: &mut ParseCtx) -> (e: Self)
        ensures
            e@ == editor_of(block@),
            final(ctx)@ == editor_ctx(old(ctx)@, block@),
            final(ctx)@.path == old(ctx)@.path,
    {
        proof {
            reveal(editor_of);
        }
        let VmfBlock { name: _, key_values, blocks } = block;
        let mut kv = key_values;
        let color = match take_key(&mut kv, "color") {
            Some(c) => c,
            None => String::from_str("255 255 255"),
        };
        let visgroup_ids = take_multi_parse::<i32>(&mut kv, "visgroupid", ctx);
        let group_id = take_opt_parse::<i32>(&mut kv, "groupid", ctx);
        proof {
            reveal_strlit("1");
            assert("1"@ =~= seq!['1']);
        }
        let visgroup_shown = match take_key(&mut kv, "visgroupshown") {
            Some(v) => str_eq(v.as_str(), "1"),
            None => false,
        };
        let visgroup_auto_shown = match take_key(&mut kv, "visgroupautoshown") {
            Some(v) => str_eq(v.as_str(), "1"),
            None => false,
        };
        let comments = take_key(&mut kv, "comments");
        let logical_pos = take_key(&mut kv, "logicalpos");
        Editor {
            color,
            visgroup_ids,
            group_id,
            visgroup_shown,
            visgroup_auto_shown,
            comments,
            logical_pos,
            extra: Extras { key_values: kv, blocks },
        }
    }
}

impl VmfSerializable for Editor {
    fn to_vmf_string(&self, indent_level: usize) -> (output: String)
        ensures
            output@ == editor_text(self@, indent_level as nat),
    {
        proof {
            reveal(editor_text);
        }
        let indent = tab_string(indent_level);
        let mut output = String::new();
        write_head(&mut output, indent.as_str(), "editor");
        assert(output@ =~= head_text(indent_level as nat, "editor"@));
        write_pair(&mut output, indent.as_str(), "color", self.color.as_str());
        let ghost ids = self.visgroup_ids@;
        let ghost o0 = output@;
        let mut i: usize = 0;
        assert(ids.take(0) =~= Seq::<i32>::empty());
        while i < self.visgroup_ids.len()
            invariant
                i <= ids.len(),
                ids == self.visgroup_ids@,
                indent@ == tabs(indent_level as nat),
                output@ == o0 + visgroup_lines(indent_level as nat, ids.take(i as int)),
            decreases self.visgroup_ids.len() - i,
        {
            assert(ids.take(i + 1).drop_last() =~= ids.take(i as int));
            let t = i64_to_string(self.visgroup_ids[i] as i64);
            write_pair(&mut output, indent.as_str(), "visgroupid", t.as_str());
            i = i + 1;
        }
        assert(ids.take(ids.len() as int) =~= ids);
        let gid = match self.group_id {
            Some(g) => Some(i64_to_string(g as i64)),
            None => None,
        };
        write_opt(&mut output, indent.as_str(), "groupid", &gid);
        let shown = self.visgroup_shown.to_01_string();
        write_pair(&mut output, indent.as_str(), "visgroupshown", shown.as_str());
        let auto = self.visgroup_auto_shown.to_01_string();
        write_pair(&mut output, indent.as_str(), "visgroupautoshown", auto.as_str());
        write_opt(&mut output, indent.as_str(), "comments", &self.comments);
        write_opt(&mut output, indent.as_str(), "logicalpos", &self.logical_pos);
        let inner = next_indent(indent_level);
        self.extra.write_key_values(&mut output, inner);
        self.extra.write_blocks(&mut output, inner);
        write_tail(&mut output, indent.as_str());
        output
    }
}

impl Default for Editor {
    /// The editor data of a new object: white, in no visgroup or group,
    /// shown.
    fn default() -> (e: Self)
        ensures
            e@ == default_editor(),
    {
        Editor::new()
    }
}

/// Leaving a visgroup undoes joining it: when the object was not in the
/// visgroup, joining and then leaving gives back its visgroups as they were.
pub proof fn lemma_leave_undoes_join(ids: Seq<i32>, id: i32)
    requires
        !ids.contains(id),
    ensures
        ids.push(id).filter(|x: i32| x != id) == ids,
    decreases ids.len(),
{
    reveal(Seq::filter);
    assert(ids.push(id).drop_last() =~= ids);
    lemma_filter_keeps_all(ids, id);
}

/// Filtering out an ID that a list does not hold keeps the list.
proof fn lemma_filter_keeps_all(ids: Seq<i32>, id: i32)
    requires
        !ids.contains(id),
    ensures
        ids.filter(|x: i32| x != id) == ids,
    decreases ids.len(),
{
    reveal(Seq::filter);
    if ids.len() > 0 {
        assert(ids.drop_last().contains(id) ==> ids.contains(id)) by {
            if ids.drop_last().contains(id) {
                let k = choose|k: int| 0 <= k < ids.drop_last().len() && ids.drop_last()[k] == id;
                assert(ids[k] == id);
            }
        }
        assert(ids[ids.len() - 1] != id);
        lemma_filter_keeps_all(ids.drop_last(), id);
        assert(ids.drop_last().push(ids.last()) =~= ids);
    }
}

} // verus!
