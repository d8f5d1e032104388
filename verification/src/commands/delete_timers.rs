use crate::map_block::map_block::MapBlock;
use crate::map_block::map_block::MapBlockView;
use crate::map_block::map_block::parse_block;
use crate::map_block::node_timer::NodeTimer;
use crate::map_block::wire::MapBlockError;
use crate::spatial::area::Area;
use crate::spatial::vec3::Vec3;
use super::BlockEdit;
use super::BlockEditView;
use super::area_reaches;
use super::fill::has_name;
use super::fill::key_pos;
use super::finish_block;
use super::node_has_id;
use super::node_matches;
use super::reaches_key;
use super::replace_nodes::id_of;
use super::replace_nodes::lemma_id_of;
use super::written;
use vstd::prelude::*;

verus! {

/// Whether the edit deletes the timer `t` of the block `b` at `pos`: it
/// reaches the timer's node, and the node has the ID `node_id` where one
/// is asked for.
pub open spec fn timer_hit(
    b: MapBlockView,
    pos: Vec3,
    area: Option<Area>,
    invert: bool,
    node_id: Option<u16>,
    t: NodeTimer,
) -> bool {
    area_reaches(area, invert, pos, t.pos as int) && node_matches(
        b.node_data.nodes,
        node_id,
        t.pos as int,
    )
}

/// Those of the first `n` timers that the edit leaves, in their order.
pub open spec fn kept_timers(
    b: MapBlockView,
    pos: Vec3,
    area: Option<Area>,
    invert: bool,
    node_id: Option<u16>,
    n: nat,
) -> Seq<NodeTimer>
    decreases n,
{
    if n == 0 {
        Seq::empty()
    } else if timer_hit(b, pos, area, invert, node_id, b.node_timers[n - 1]) {
        kept_timers(b, pos, area, invert, node_id, (n - 1) as nat)
    } else {
        kept_timers(b, pos, area, invert, node_id, (n - 1) as nat).push(b.node_timers[n - 1])
    }
}

/// Deletes the timers of the nodes that the edit reaches in the block at
/// `pos`; only those of nodes with the ID `node_id` where one is given.
/// Returns the number of timers deleted.
pub fn delete_timers_in(
    block: &mut MapBlock,
    pos: Vec3,
    area: Option<Area>,
    invert: bool,
    node_id: Option<u16>,
) -> (count: u64)
    ensures
        final(block)@ == (MapBlockView {
            node_timers: kept_timers(
                old(block)@,
                pos,
                area,
                invert,
                node_id,
                old(block)@.node_timers.len(),
            ),
            ..old(block)@
        }),
        count == old(block)@.node_timers.len() - final(block)@.node_timers.len(),
{
    let ghost b = block@;
    let mut timers: Vec<NodeTimer> = Vec::new();
    core::mem::swap(&mut block.node_timers, &mut timers);
    let mut kept: Vec<NodeTimer> = Vec::new();
    let mut i: usize = 0;
    while i < timers.len()
        invariant
            i <= timers@.len(),
            timers@ == b.node_timers,
            block.node_data.value()@ == b.node_data,
            kept@ == kept_timers(b, pos, area, invert, node_id, i as nat),
            kept@.len() <= i,
        decreases timers@.len() - i,
    {
        let t = timers[i];
        let hit = reaches_key(&area, invert, pos, t.pos) && node_has_id(
            &block.node_data.get_ref().nodes,
            node_id,
            t.pos as usize,
        );
        if !hit {
            kept.push(t);
        }
        i = i + 1;
    }
    let count: u64 = (timers.len() - kept.len()) as u64;
    block.node_timers = kept;
    count
}

/// What deleting timers makes of the stored block `b` at `pos`: nothing
/// where a node is asked for that the block does not have, or where no
/// timer is deleted; else the block without the timers, written.
pub open spec fn delete_timers_outcome(
    b: MapBlockView,
    pos: Vec3,
    node: Option<Seq<u8>>,
    area: Option<Area>,
    invert: bool,
) -> BlockEditView {
    if node matches Some(name) && !has_name(b.nimap, name) {
        BlockEditView::Skipped
    } else {
        let node_id = match node {
            Some(name) => Some(id_of(b.nimap, name)),
            None => None,
        };
        let kept = kept_timers(b, pos, area, invert, node_id, b.node_timers.len());
        if kept.len() == b.node_timers.len() {
            BlockEditView::Skipped
        } else {
            written(
                MapBlockView { node_timers: kept, ..b },
                (b.node_timers.len() - kept.len()) as u64,
            )
        }
    }
}

/// Deletes timers from the stored block `data`, which has the key `key`:
/// those of the nodes within `area`, or outside it where `invert` is set,
/// or all where no area is given; only those of the nodes named `node`
/// where a name is given.
pub fn delete_timers_block(
    data: &[u8],
    key: i64,
    node: Option<&[u8]>,
    area: Option<Area>,
    invert: bool,
) -> (r: BlockEdit)
    ensures
        match parse_block(data@) {
            Ok(b) => r@ == delete_timers_outcome(
                b,
                key_pos(key),
                match node {
                    Some(name) => Some(name@),
                    None => None,
                },
                area,
                invert,
            ),
            Err(e) => r@ == BlockEditView::Failed,
        },
{
    let pos = Vec3::from_block_key(key);
    let mut block = match MapBlock::deserialize(data) {
        Ok(block) => block,
        Err(_) => {
            return BlockEdit::Failed;
        },
    };
    let ghost b = block@;
    assert(pos == key_pos(key));
    assert(parse_block(data@) == Ok::<MapBlockView, MapBlockError>(b));
    let node_id: Option<u16> = match node {
        Some(name) => match block.nimap.get_id(name) {
            Some(id) => {
                proof {
                    lemma_id_of(b.nimap, name@, id);
                }
                Some(id)
            },
            None => {
                // The block doesn't contain the required node.
                return BlockEdit::Skipped;
            },
        },
        None => None,
    };
    let count = delete_timers_in(&mut block, pos, area, invert, node_id);
    if count == 0 {
        return BlockEdit::Skipped;
    }
    finish_block(&block, count)
}

} // verus!
