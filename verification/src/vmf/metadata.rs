//! The metadata blocks of a map file: version info, visgroups and view
//! settings.

use vstd::prelude::*;
use crate::kv::ser::tabs;
use crate::ordmap::str_entries;
use crate::text::{dec, dec_int, eq_ignore_ascii_case, i64_to_string, u64_to_string};
use crate::vmf::block::{BlockTree, Extras, VmfBlock, blocks_text, blocks_tree, lemma_blocks_tree, pairs_text,
    tab_string, next_indent, next_level};
use crate::vmf::common::{VmfSerializable, extras_view, white};
use crate::vmf::parse_ctx::{CtxView, ParseCtx};
use crate::vmf::typed::{head_lines, head_text, into_queue, named, next_block, pair_line, tail_line, tail_text,
    write_head, write_pair, write_tail};
use crate::vmf::utils::{FieldValue, Pairs, To01String, bool_text, parse_or, take_bool, take_parse, take_str, taken,
    at_path, entered, parse_or_ctx, str_ctx};

verus! {

broadcast use {lemma_blocks_tree, crate::vmf::utils::group_ctx_paths};

/// A flag read by `take_bool`: `1` where present, `d` where missing.
pub open spec fn flag_or(v: Option<Seq<char>>, d: bool) -> bool {
    match v {
        Some(t) => t == seq!['1'],
        None => d,
    }
}

/// The content of a [`VersionInfo`].
pub struct VersionInfoView {
    pub editor_version: i32,
    pub editor_build: i32,
    pub map_version: i32,
    pub format_version: i32,
    pub prefab: bool,
    pub extra: (Pairs, Seq<BlockTree>),
}

/// Represents the version info of a map file.
#[derive(Debug, PartialEq)]
pub struct VersionInfo {
    pub editor_version: i32,
    pub editor_build: i32,
    pub map_version: i32,
    pub format_version: i32,
    /// Whether the map is a prefab.
    pub prefab: bool,
    /// Keys and blocks this struct does not model.
    pub extra: Extras,
}

impl View for VersionInfo {
    type V = VersionInfoView;

    open spec fn view(&self) -> VersionInfoView {
        VersionInfoView {
            editor_version: self.editor_version,
            editor_build: self.editor_build,
            map_version: self.map_version,
            format_version: self.format_version,
            prefab: self.prefab,
            extra: extras_view(self.extra),
        }
    }
}

/// The version info read from a `versioninfo` block (0 and false where
/// missing or unreadable).
#[verifier::opaque]
pub open spec fn versioninfo_of(b: BlockTree) -> VersionInfoView {
    let (ev, k1) = taken(b.kvs, "editorversion"@);
    let (eb, k2) = taken(k1, "editorbuild"@);
    let (mv, k3) = taken(k2, "mapversion"@);
    let (fv, k4) = taken(k3, "formatversion"@);
    let (pf, k5) = taken(k4, "prefab"@);
    VersionInfoView {
        editor_version: parse_or(ev, 0i32),
        editor_build: parse_or(eb, 0i32),
        map_version: parse_or(mv, 0i32),
        format_version: parse_or(fv, 0i32),
        prefab: flag_or(pf, false),
        extra: (k5, b.blocks),
    }
}

/// The context after reading the `versioninfo` block: the warnings about
/// its fields, missing or unreadable, within `versioninfo`.
#[verifier::opaque]
pub open spec fn versioninfo_ctx(c: CtxView, b: BlockTree) -> CtxView {
    let (ev, k1) = taken(b.kvs, "editorversion"@);
    let (eb, k2) = taken(k1, "editorbuild"@);
    let (mv, k3) = taken(k2, "mapversion"@);
    let (fv, k4) = taken(k3, "formatversion"@);
    let (pf, _) = taken(k4, "prefab"@);
    let c1 = parse_or_ctx(entered(c, "versioninfo"@), "editorversion"@, ev, 0i32);
    let c2 = parse_or_ctx(c1, "editorbuild"@, eb, 0i32);
    let c3 = parse_or_ctx(c2, "mapversion"@, mv, 0i32);
    let c4 = parse_or_ctx(c3, "formatversion"@, fv, 0i32);
    at_path(str_ctx(c4, "prefab"@, pf, bool_text(false)), c.path)
}

/// The text of version info as a block at `level`.
#[verifier::opaque]
pub open spec fn versioninfo_text(v: VersionInfoView, level: nat) -> Seq<char> {
    let ind = tabs(level);
    head_text(level, "versioninfo"@) + pair_line(ind, "editorversion"@, dec_int(v.editor_version as int)) + pair_line(
        ind,
        "editorbuild"@,
        dec_int(v.editor_build as int),
    ) + pair_line(ind, "mapversion"@, dec_int(v.map_version as int)) + pair_line(
        ind,
        "formatversion"@,
        dec_int(v.format_version as int),
    ) + pair_line(ind, "prefab"@, bool_text(v.prefab)) + pairs_text(tabs(next_level(level)), v.extra.0) + blocks_text(
        v.extra.1,
        next_level(level),
    ) + tail_text(level)
}

impl VersionInfo {
    /// Version info of a new map: all numbers 0, no prefab.
    pub fn new() -> (v: Self)
        ensures
            v@ == (VersionInfoView {
                editor_version: 0,
                editor_build: 0,
                map_version: 0,
                format_version: 0,
                prefab: false,
                extra: (Seq::empty(), Seq::empty()),
            }),
    {
        let v = VersionInfo {
            editor_version: 0,
            editor_build: 0,
            map_version: 0,
            format_version: 0,
            prefab: false,
            extra: Extras::new(),
        };
        assert(v@.extra.0 =~= Seq::<(Seq<char>, Seq<char>)>::empty());
        assert(v@.extra.1 =~= Seq::<BlockTree>::empty());
        v
    }

    /// Reads the `versioninfo` block.
    pub fn from_block(block: VmfBlock, ctx: &mut ParseCtx) -> (v: Self)
        ensures
            v@ == versioninfo_of(block@),
            final(ctx)@ == versioninfo_ctx(old(ctx)@, block@),
            final(ctx)@.path == old(ctx)@.path,
    {
        proof {
            reveal(versioninfo_of);
            reveal(versioninfo_ctx);
        }
        ctx.enter("versioninfo");
        let VmfBlock { name: _, key_values, blocks } = block;
        let mut kv = key_values;
        let editor_version = take_parse::<i32>(&mut kv, "editorversion", 0, ctx);
        let editor_build = take_parse::<i32>(&mut kv, "editorbuild", 0, ctx);
        let map_version = take_parse::<i32>(&mut kv, "mapversion", 0, ctx);
        let format_version = take_parse::<i32>(&mut kv, "formatversion", 0, ctx);
        let prefab = take_bool(&mut kv, "prefab", false, ctx);
        ctx.leave();
        assert(ctx@.path =~= old(ctx)@.path);
        VersionInfo {
            editor_version,
            editor_build,
            map_version,
            format_version,
            prefab,
            extra: Extras { key_values: kv, blocks },
        }
    }
}

impl VmfSerializable for VersionInfo {
    fn to_vmf_string(&self, indent_level: usize) -> (output: String)
        ensures
            output@ == versioninfo_text(self@, indent_level as nat),
    {
        proof {
            reveal(versioninfo_text);
        }
        let indent = tab_string(indent_level);
        let ind = indent.as_str();
        let mut output = String::new();
        write_head(&mut output, ind, "versioninfo");
        assert(output@ =~= head_text(indent_level as nat, "versioninfo"@));
        let t1 = i64_to_string(self.editor_version as i64);
        write_pair(&mut output, ind, "editorversion", t1.as_str());
        let t2 = i64_to_string(self.editor_build as i64);
        write_pair(&mut output, ind, "editorbuild", t2.as_str());
        let t3 = i64_to_string(self.map_version as i64);
        write_pair(&mut output, ind, "mapversion", t3.as_str());
        let t4 = i64_to_string(self.format_version as i64);
        write_pair(&mut output, ind, "formatversion", t4.as_str());
        let t5 = self.prefab.to_01_string();
        write_pair(&mut output, ind, "prefab", t5.as_str());
        let inner = next_indent(indent_level);
        self.extra.write_key_values(&mut output, inner);
        self.extra.write_blocks(&mut output, inner);
        write_tail(&mut output, ind);
        output
    }
}

/// The content of a [`ViewSettings`].
pub struct ViewSettingsView {
    pub snap_to_grid: bool,
    pub show_grid: bool,
    pub show_logical_grid: bool,
    pub grid_spacing: u16,
    pub show_3d_grid: bool,
    pub extra: (Pairs, Seq<BlockTree>),
}

/// Represents the view settings of a map file.
#[derive(Debug, PartialEq)]
pub struct ViewSettings {
    pub snap_to_grid: bool,
    pub show_grid: bool,
    pub show_logical_grid: bool,
    pub grid_spacing: u16,
    pub show_3d_grid: bool,
    /// Keys and blocks this struct does not model.
    pub extra: Extras,
}

impl View for ViewSettings {
    type V = ViewSettingsView;

    open spec fn view(&self) -> ViewSettingsView {
        ViewSettingsView {
            snap_to_grid: self.snap_to_grid,
            show_grid: self.show_grid,
            show_logical_grid: self.show_logical_grid,
            grid_spacing: self.grid_spacing,
            show_3d_grid: self.show_3d_grid,
            extra: extras_view(self.extra),
        }
    }
}

/// The view settings read from a `viewsettings` block; missing values take
/// the defaults of a new map (snapping and grid on, spacing 8).
#[verifier::opaque]
pub open spec fn viewsettings_of(b: BlockTree) -> ViewSettingsView {
    let (snap, k1) = taken(b.kvs, "bSnapToGrid"@);
    let (grid, k2) = taken(k1, "bShowGrid"@);
    let (logical, k3) = taken(k2, "bShowLogicalGrid"@);
    let (spacing, k4) = taken(k3, "nGridSpacing"@);
    let (grid3d, k5) = taken(k4, "bShow3DGrid"@);
    ViewSettingsView {
        snap_to_grid: flag_or(snap, true),
        show_grid: flag_or(grid, true),
        show_logical_grid: flag_or(logical, false),
        grid_spacing: parse_or(spacing, 8u16),
        show_3d_grid: flag_or(grid3d, false),
        extra: (k5, b.blocks),
    }
}

/// The context after reading the `viewsettings` block: the warnings about
/// its fields, missing or unreadable, within `viewsettings`.
#[verifier::opaque]
pub open spec fn viewsettings_ctx(c: CtxView, b: BlockTree) -> CtxView {
    let (snap, k1) = taken(b.kvs, "bSnapToGrid"@);
    let (grid, k2) = taken(k1, "bShowGrid"@);
    let (logical, k3) = taken(k2, "bShowLogicalGrid"@);
    let (spacing, k4) = taken(k3, "nGridSpacing"@);
    let (grid3d, _) = taken(k4, "bShow3DGrid"@);
    let c1 = str_ctx(entered(c, "viewsettings"@), "bSnapToGrid"@, snap, bool_text(true));
    let c2 = str_ctx(c1, "bShowGrid"@, grid, bool_text(true));
    let c3 = str_ctx(c2, "bShowLogicalGrid"@, logical, bool_text(false));
    let c4 = parse_or_ctx(c3, "nGridSpacing"@, spacing, 8u16);
    at_path(str_ctx(c4, "bShow3DGrid"@, grid3d, bool_text(false)), c.path)
}

/// The text of view settings as a block at `level`.
#[verifier::opaque]
pub open spec fn viewsettings_text(v: ViewSettingsView, level: nat) -> Seq<char> {
    let ind = tabs(level);
    head_text(level, "viewsettings"@) + pair_line(ind, "bSnapToGrid"@, bool_text(v.snap_to_grid)) + pair_line(
        ind,
        "bShowGrid"@,
        bool_text(v.show_grid),
    ) + pair_line(ind, "bShowLogicalGrid"@, bool_text(v.show_logical_grid)) + pair_line(
        ind,
        "nGridSpacing"@,
        dec(v.grid_spacing as nat),
    ) + pair_line(ind, "bShow3DGrid"@, bool_text(v.show_3d_grid)) + pairs_text(tabs(next_level(level)), v.extra.0)
        + blocks_text(v.extra.1, next_level(level)) + tail_text(level)
}

impl ViewSettings {
    /// The view settings of a new map.
    pub fn new() -> (v: Self)
        ensures
            v@ == (ViewSettingsView {
                snap_to_grid: true,
                show_grid: true,
                show_logical_grid: false,
                grid_spacing: 8,
                show_3d_grid: false,
                extra: (Seq::empty(), Seq::empty()),
            }),
    {
        let v = ViewSettings {
            snap_to_grid: true,
            show_grid: true,
            show_logical_grid: false,
            grid_spacing: 8,
            show_3d_grid: false,
            extra: Extras::new(),
        };
        assert(v@.extra.0 =~= Seq::<(Seq<char>, Seq<char>)>::empty());
        assert(v@.extra.1 =~= Seq::<BlockTree>::empty());
        v
    }

    /// Reads the `viewsettings` block.
    pub fn from_block(block: VmfBlock, ctx: &mut ParseCtx) -> (v: Self)
        ensures
            v@ == viewsettings_of(block@),
            final(ctx)@ == viewsettings_ctx(old(ctx)@, block@),
            final(ctx)@.path == old(ctx)@.path,
    {
        proof {
            reveal(viewsettings_of);
            reveal(viewsettings_ctx);
        }
        ctx.enter("viewsettings");
        let VmfBlock { name: _, key_values, blocks } = block;
        let mut kv = key_values;
        let snap_to_grid = take_bool(&mut kv, "bSnapToGrid", true, ctx);
        let show_grid = take_bool(&mut kv, "bShowGrid", true, ctx);
        let show_logical_grid = take_bool(&mut kv, "bShowLogicalGrid", false, ctx);
        let grid_spacing = take_parse::<u16>(&mut kv, "nGridSpacing", 8, ctx);
        let show_3d_grid = take_bool(&mut kv, "bShow3DGrid", false, ctx);
        ctx.leave();
        assert(ctx@.path =~= old(ctx)@.path);
        ViewSettings {
            snap_to_grid,
            show_grid,
            show_logical_grid,
            grid_spacing,
            show_3d_grid,
            extra: Extras { key_values: kv, blocks },
        }
    }
}

impl VmfSerializable for ViewSettings {
    fn to_vmf_string(&self, indent_level: usize) -> (output: String)
        ensures
            output@ == viewsettings_text(self@, indent_level as nat),
    {
        proof {
            reveal(viewsettings_text);
        }
        let indent = tab_string(indent_level);
        let ind = indent.as_str();
        let mut output = String::new();
        write_head(&mut output, ind, "viewsettings");
        assert(output@ =~= head_text(indent_level as nat, "viewsettings"@));
        let t1 = self.snap_to_grid.to_01_string();
        write_pair(&mut output, ind, "bSnapToGrid", t1.as_str());
        let t2 = self.show_grid.to_01_string();
        write_pair(&mut output, ind, "bShowGrid", t2.as_str());
        let t3 = self.show_logical_grid.to_01_string();
        write_pair(&mut output, ind, "bShowLogicalGrid", t3.as_str());
        let t4 = u64_to_string(self.grid_spacing as u64);
        write_pair(&mut output, ind, "nGridSpacing", t4.as_str());
        let t5 = self.show_3d_grid.to_01_string();
        write_pair(&mut output, ind, "bShow3DGrid", t5.as_str());
        let inner = next_indent(indent_level);
        self.extra.write_key_values(&mut output, inner);
        self.extra.write_blocks(&mut output, inner);
        write_tail(&mut output, ind);
        output
    }
}

} // verus!
