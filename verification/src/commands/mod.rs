//! The edits, each as what it does to one block.

pub mod clone;
pub mod delete_meta;
pub mod delete_objects;
pub mod delete_timers;
pub mod fill;
pub mod overlay;
pub mod replace_in_inv;
pub mod replace_laws;
pub mod replace_nodes;
pub mod set_meta_var;
pub mod set_param2;

use crate::instance::InstArgs;
use crate::map_block::map_block::MapBlock;
use crate::map_block::map_block::MapBlockView;
use crate::map_block::map_block::encode_block;
use crate::map_block::name_id_map::NameIdMap;
use crate::spatial::area::Area;
use crate::spatial::inverse::index_in_area;
use crate::spatial::vec3::Vec3;
use self::fill::has_name;
use self::replace_nodes::id_of;
use self::replace_nodes::lemma_id_of;
use vstd::prelude::*;
use vstd::string::StringExecFns;

verus! {

/// How many decoded blocks an edit keeps at hand when it reads from blocks
/// other than the one it writes.
pub const BLOCK_CACHE_SIZE: usize = 1024;

/// What the check of a command's arguments came to.
#[derive(Clone, Debug)]
pub enum ArgResult {
    Okay,
    Warning(String),
    Error(String),
}

impl ArgResult {
    /// A warning with the text `msg`.
    pub fn warning(msg: &str) -> (r: Self)
        ensures
            r@ == ArgResultView::Warning(msg@),
    {
        ArgResult::Warning(String::from_str(msg))
    }

    /// An error with the text `msg`.
    pub fn error(msg: &str) -> (r: Self)
        ensures
            r@ == ArgResultView::Error(msg@),
    {
        ArgResult::Error(String::from_str(msg))
    }
}

/// What the check of a command's arguments came to.
pub enum ArgResultView {
    Okay,
    Warning(Seq<char>),
    Error(Seq<char>),
}

impl View for ArgResult {
    type V = ArgResultView;

    open spec fn view(&self) -> ArgResultView {
        match self {
            ArgResult::Okay => ArgResultView::Okay,
            ArgResult::Warning(text) => ArgResultView::Warning(text@),
            ArgResult::Error(text) => ArgResultView::Error(text@),
        }
    }
}

/// What an edit made of one stored block.
#[derive(Clone, Debug)]
pub enum BlockEdit {
    /// The block could not be read, edited or written; it is left as it
    /// was and counted as failed.
    Failed,
    /// The edit does not apply to the block; it is left as it was.
    Skipped,
    /// The block is to be stored as `data`; `count` says how much the edit
    /// changed in it.
    Changed { data: Vec<u8>, count: u64 },
}

/// What an edit made of one stored block.
pub enum BlockEditView {
    Failed,
    Skipped,
    Changed { data: Seq<u8>, count: u64 },
}

impl View for BlockEdit {
    type V = BlockEditView;

    open spec fn view(&self) -> BlockEditView {
        match self {
            BlockEdit::Failed => BlockEditView::Failed,
            BlockEdit::Skipped => BlockEditView::Skipped,
            BlockEdit::Changed { data, count } => BlockEditView::Changed {
                data: data@,
                count: *count,
            },
        }
    }
}

/// What writing the edited block `b` comes to: the bytes it is stored as,
/// or a failure where it cannot be written.
pub open spec fn written(b: MapBlockView, count: u64) -> BlockEditView {
    if !b.encodable() {
        BlockEditView::Failed
    } else {
        match encode_block(b) {
            Some(data) => BlockEditView::Changed { data, count },
            None => BlockEditView::Failed,
        }
    }
}

/// Writes an edited block.
pub fn finish_block(block: &MapBlock, count: u64) -> (r: BlockEdit)
    ensures
        r@ == written(block@, count),
{
    if !block.encodable() {
        return BlockEdit::Failed;
    }
    match block.serialize() {
        Some(data) => BlockEdit::Changed { data, count },
        None => BlockEdit::Failed,
    }
}

/// Whether an edit reaches the node `i` of a block: the node lies in the
/// part `area` of the block, or outside it where the edit is inverted.
pub open spec fn in_region(area: Area, invert: bool, i: int) -> bool {
    index_in_area(area, i) != invert
}

/// Whether `area` holds the node with the index or key `k` of the block at
/// `pos`. Of `k` only the lowest twelve bits count.
pub open spec fn area_holds(area: Area, pos: Vec3, k: int) -> bool {
    &&& area.min.x <= 16 * pos.x + k % 16 <= area.max.x
    &&& area.min.y <= 16 * pos.y + (k / 16) % 16 <= area.max.y
    &&& area.min.z <= 16 * pos.z + (k / 256) % 16 <= area.max.z
}

/// Whether an edit within `area`, or outside it where `invert` is set,
/// reaches the node with the index or key `k` of the block at `pos`. An
/// edit without an area reaches every node.
pub open spec fn area_reaches(area: Option<Area>, invert: bool, pos: Vec3, k: int) -> bool {
    match area {
        Some(a) => area_holds(a, pos, k) != invert,
        None => true,
    }
}

/// Whether an edit reaches the node with the index or key `k` of the block
/// at `pos`.
pub fn reaches_key(area: &Option<Area>, invert: bool, pos: Vec3, k: u16) -> (r: bool)
    ensures
        r == area_reaches(*area, invert, pos, k as int),
{
    match area {
        Some(a) => {
            let x: i64 = pos.x as i64 * 16 + (k % 16) as i64;
            let y: i64 = pos.y as i64 * 16 + ((k / 16) % 16) as i64;
            let z: i64 = pos.z as i64 * 16 + ((k / 256) % 16) as i64;
            let held = a.min.x as i64 <= x && x <= a.max.x as i64 && a.min.y as i64 <= y && y
                <= a.max.y as i64 && a.min.z as i64 <= z && z <= a.max.z as i64;
            held != invert
        },
        None => true,
    }
}

/// Whether the node `k` of a block has the ID `node_id`, where one is
/// asked for. A node that the block does not have, has no ID.
pub open spec fn node_matches(nodes: Seq<u16>, node_id: Option<u16>, k: int) -> bool {
    match node_id {
        Some(id) => 0 <= k < nodes.len() && nodes[k] == id,
        None => true,
    }
}

/// Whether the node `k` of a block has the ID `node_id`, where one is
/// asked for.
pub fn node_has_id(nodes: &Vec<u16>, node_id: Option<u16>, k: usize) -> (r: bool)
    ensures
        r == node_matches(nodes@, node_id, k as int),
{
    match node_id {
        Some(id) => k < nodes.len() && nodes[k] == id,
        None => true,
    }
}

/// The IDs that the first `n` of `names` have in `m`, in their order;
/// names that `m` does not have are passed over.
pub open spec fn named_ids(m: Map<u16, Seq<u8>>, names: Seq<Seq<u8>>, n: nat) -> Seq<u16>
    decreases n,
{
    if n == 0 {
        Seq::empty()
    } else if has_name(m, names[n - 1]) {
        named_ids(m, names, (n - 1) as nat).push(id_of(m, names[n - 1]))
    } else {
        named_ids(m, names, (n - 1) as nat)
    }
}

/// The names of a list of byte strings.
pub open spec fn names_view(names: Seq<Vec<u8>>) -> Seq<Seq<u8>> {
    Seq::new(names.len(), |i: int| names[i]@)
}

/// The IDs that the names `names` have in the block's map of names.
pub fn find_node_ids(nimap: &NameIdMap, names: &Vec<Vec<u8>>) -> (ids: Vec<u16>)
    ensures
        ids@ == named_ids(nimap@, names_view(names@), names@.len()),
{
    let mut ids: Vec<u16> = Vec::new();
    let mut i: usize = 0;
    while i < names.len()
        invariant
            i <= names@.len(),
            ids@ == named_ids(nimap@, names_view(names@), i as nat),
        decreases names@.len() - i,
    {
        assert(names_view(names@)[i as int] == names@[i as int]@);
        match nimap.get_id(names[i].as_slice()) {
            Some(id) => {
                proof {
                    lemma_id_of(nimap@, names@[i as int]@, id);
                }
                ids.push(id);
            },
            None => {},
        }
        i = i + 1;
    }
    ids
}

/// Whether the node `k` of a block has one of the IDs `node_ids`, where
/// any are asked for. A node that the block does not have, has no ID.
pub open spec fn node_among(nodes: Seq<u16>, node_ids: Seq<u16>, k: int) -> bool {
    node_ids.len() == 0 || (0 <= k < nodes.len() && node_ids.contains(nodes[k]))
}

/// Whether the node `k` of a block has one of the IDs `node_ids`, where
/// any are asked for.
pub fn node_is_among(nodes: &Vec<u16>, node_ids: &Vec<u16>, k: usize) -> (r: bool)
    ensures
        r == node_among(nodes@, node_ids@, k as int),
{
    if node_ids.len() == 0 {
        return true;
    }
    if k >= nodes.len() {
        return false;
    }
    let id = nodes[k];
    let mut i: usize = 0;
    while i < node_ids.len()
        invariant
            i <= node_ids@.len(),
            k < nodes@.len(),
            id == nodes@[k as int],
            node_ids@.len() > 0,
            forall|j: int| 0 <= j < i ==> node_ids@[j] != id,
        decreases node_ids@.len() - i,
    {
        if node_ids[i] == id {
            assert(node_ids@[i as int] == nodes@[k as int]);
            return true;
        }
        i = i + 1;
    }
    false
}

/// The name of the node `i` of a block.
pub open spec fn name_at(b: MapBlockView, i: int) -> Seq<u8> {
    b.nimap[b.node_data.nodes[i]]
}

/// The commands.
#[derive(Clone, Copy, Debug, PartialEq, Eq, Structural)]
pub enum CommandKind {
    Clone,
    DeleteBlocks,
    DeleteMeta,
    DeleteObjects,
    DeleteTimers,
    Fill,
    Overlay,
    ReplaceInInv,
    ReplaceNodes,
    SetMetaVar,
    SetParam2,
    Vacuum,
}

impl CommandKind {
    /// The name by which the command is called.
    pub open spec fn spec_name(self) -> Seq<char> {
        match self {
            CommandKind::Clone => "clone"@,
            CommandKind::DeleteBlocks => "deleteblocks"@,
            CommandKind::DeleteMeta => "deletemeta"@,
            CommandKind::DeleteObjects => "deleteobjects"@,
            CommandKind::DeleteTimers => "deletetimers"@,
            CommandKind::Fill => "fill"@,
            CommandKind::Overlay => "overlay"@,
            CommandKind::ReplaceInInv => "replaceininv"@,
            CommandKind::ReplaceNodes => "replacenodes"@,
            CommandKind::SetMetaVar => "setmetavar"@,
            CommandKind::SetParam2 => "setparam2"@,
            CommandKind::Vacuum => "vacuum"@,
        }
    }

    /// The name by which the command is called.
    pub fn name(self) -> (r: &'static str)
        ensures
            r@ == self.spec_name(),
    {
        match self {
            CommandKind::Clone => "clone",
            CommandKind::DeleteBlocks => "deleteblocks",
            CommandKind::DeleteMeta => "deletemeta",
            CommandKind::DeleteObjects => "deleteobjects",
            CommandKind::DeleteTimers => "deletetimers",
            CommandKind::Fill => "fill",
            CommandKind::Overlay => "overlay",
            CommandKind::ReplaceInInv => "replaceininv",
            CommandKind::ReplaceNodes => "replacenodes",
            CommandKind::SetMetaVar => "setmetavar",
            CommandKind::SetParam2 => "setparam2",
            CommandKind::Vacuum => "vacuum",
        }
    }

    /// What the command's own check of the arguments comes to. A command
    /// without a check of its own accepts all arguments; a clone needs an
    /// area and an offset before anything else.
    pub open spec fn args_checked(self, args: InstArgs) -> ArgResultView {
        match self {
            CommandKind::Clone => if args.area is Some && args.offset is Some {
                clone::args_checked(args)
            } else {
                ArgResultView::Error("An area and an offset are required."@)
            },
            CommandKind::DeleteMeta => delete_meta::args_checked(args),
            CommandKind::DeleteObjects => delete_objects::args_checked(args),
            CommandKind::Overlay => overlay::args_checked(args),
            CommandKind::ReplaceInInv => replace_in_inv::args_checked(args),
            CommandKind::ReplaceNodes => replace_nodes::args_checked(args),
            CommandKind::SetMetaVar => set_meta_var::args_checked(args),
            CommandKind::SetParam2 => set_param2::args_checked(args),
            _ => ArgResultView::Okay,
        }
    }

    /// Checks the arguments as the command asks.
    pub fn verify_args(self, args: &InstArgs) -> (r: ArgResult)
        ensures
            r@ == self.args_checked(*args),
    {
        match self {
            CommandKind::Clone => {
                if args.area.is_some() && args.offset.is_some() {
                    clone::verify_args(args)
                } else {
                    ArgResult::error("An area and an offset are required.")
                }
            },
            CommandKind::DeleteMeta => delete_meta::verify_args(args),
            CommandKind::DeleteObjects => delete_objects::verify_args(args),
            CommandKind::Overlay => overlay::verify_args(args),
            CommandKind::ReplaceInInv => replace_in_inv::verify_args(args),
            CommandKind::ReplaceNodes => replace_nodes::verify_args(args),
            CommandKind::SetMetaVar => set_meta_var::verify_args(args),
            CommandKind::SetParam2 => set_param2::verify_args(args),
            _ => ArgResult::Okay,
        }
    }
}

} // verus!
