use crate::block_utils::is_max_id;
use crate::block_utils::lemma_max_id;
use crate::block_utils::max_id;
use crate::block_utils::names_distinct;
use crate::map_block::map_block::MapBlockView;
use crate::map_block::name_id_map::removed_shifted;
use crate::map_block::node_data::NODE_COUNT;
use crate::spatial::area::Area;
use super::fill::has_name;
use super::fill::is_id_of;
use super::name_at;
use super::replace_nodes::can_replace;
use super::replace_nodes::count_ids;
use super::replace_nodes::id_of;
use super::replace_nodes::lemma_id_of;
use super::replace_nodes::lowered_ids;
use super::replace_nodes::merged_ids;
use super::replace_nodes::reaches;
use super::replace_nodes::replaced_block;
use super::replace_nodes::swapped_ids;
use super::replace_nodes::with_nodes;
use vstd::prelude::*;

verus! {

/// Whether a block is sound for edits by name: it has all its nodes, every
/// node's ID has a name, and no name stands twice.
pub open spec fn names_sound(b: MapBlockView) -> bool {
    &&& b.node_data.nodes.len() == NODE_COUNT
    &&& b.ids_valid()
    &&& names_distinct(b.nimap)
}

/// A map of names with an ID has a greatest ID.
pub proof fn lemma_max_exists(m: Map<u16, Seq<u8>>, k: u16, top: int)
    requires
        m.contains_key(k),
        k <= top <= u16::MAX,
        forall|j: u16| j > top ==> !m.contains_key(j),
    ensures
        max_id(m) >= k,
        m.contains_key(max_id(m) as u16),
        forall|j: u16| m.contains_key(j) ==> j <= max_id(m),
    decreases top - k,
{
    if m.contains_key(top as u16) {
        assert(is_max_id(m, top as u16));
        lemma_max_id(m, top as u16);
    } else {
        lemma_max_exists(m, k, top - 1);
    }
}

/// No ID of a map of names is above `max_id`.
pub proof fn lemma_max_bounds(m: Map<u16, Seq<u8>>)
    ensures
        -1 <= max_id(m) <= u16::MAX,
        forall|j: u16| m.contains_key(j) ==> j <= max_id(m),
{
    assert forall|j: u16| m.contains_key(j) implies j <= max_id(m) by {
        lemma_max_exists(m, j, u16::MAX as int);
    }
}

/// Where none of the nodes that the edit reaches has the ID, the count is
/// 0, and where the count is 0 none has.
pub proof fn lemma_count_zero(nodes: Seq<u16>, part: Option<Area>, invert: bool, id: u16, n: nat)
    requires
        n <= nodes.len(),
    ensures
        count_ids(nodes, part, invert, id, n) == 0 <==> forall|i: int|
            0 <= i < n ==> !(reaches(part, invert, i) && nodes[i] == id),
    decreases n,
{
    if n > 0 {
        lemma_count_zero(nodes, part, invert, id, (n - 1) as nat);
        if count_ids(nodes, part, invert, id, n) == 0 {
            assert forall|i: int| 0 <= i < n implies !(reaches(part, invert, i) && nodes[i] == id) by {
                if i < n - 1 {
                }
            }
        }
    }
}

/// Taking an ID out of a sound block in which no node has it leaves the
/// names of the nodes as they are.
proof fn lemma_shift_keeps_names(
    names: Map<u16, Seq<u8>>,
    nodes: Seq<u16>,
    id: u16,
    i: int,
)
    requires
        0 <= i < nodes.len(),
        names.contains_key(nodes[i]),
        nodes[i] != id,
    ensures
        removed_shifted(names, id).contains_key(lowered_ids(nodes, id)[i]),
        removed_shifted(names, id)[lowered_ids(nodes, id)[i]] == names[nodes[i]],
{
}

/// Taking an ID out keeps names distinct.
proof fn lemma_shift_keeps_distinct(names: Map<u16, Seq<u8>>, id: u16)
    requires
        names_distinct(names),
    ensures
        names_distinct(removed_shifted(names, id)),
{
    let after = removed_shifted(names, id);
    assert forall|a: u16, b: u16|
        after.contains_key(a) && after.contains_key(b) && a != b implies after[a] != after[b] by {
        let a0: u16 = if a < id { a } else { (a + 1) as u16 };
        let b0: u16 = if b < id { b } else { (b + 1) as u16 };
        assert(names.contains_key(a0) && names.contains_key(b0) && a0 != b0);
    }
}

/// In a sound block that a replacement can work on, the replacement gives
/// the name `new_node` to the nodes it reaches that had the ID `old_id`,
/// leaves the names of the others, and leaves the block sound.
pub proof fn lemma_replaced_names(
    b: MapBlockView,
    part: Option<Area>,
    invert: bool,
    old_id: u16,
    new_node: Seq<u8>,
)
    requires
        names_sound(b),
        b.nimap.contains_key(old_id),
        b.nimap[old_id] != new_node,
        can_replace(b, part, old_id, new_node),
    ensures
        names_sound(replaced_block(b, part, invert, old_id, new_node).0),
        forall|i: int|
            0 <= i < NODE_COUNT ==> #[trigger] name_at(
                replaced_block(b, part, invert, old_id, new_node).0,
                i,
            ) == if reaches(part, invert, i) && b.node_data.nodes[i] == old_id {
                new_node
            } else {
                name_at(b, i)
            },
        forall|k: u16|
            replaced_block(b, part, invert, old_id, new_node).0.nimap.contains_key(k) ==> k
                <= max_id(b.nimap) + 1,
{
    let after = replaced_block(b, part, invert, old_id, new_node).0;
    let nodes = b.node_data.nodes;
    let replaced = count_ids(nodes, part, invert, old_id, nodes.len());
    let known = has_name(b.nimap, new_node);
    lemma_max_bounds(b.nimap);
    lemma_count_zero(nodes, part, invert, old_id, nodes.len());
    if part is Some {
        let new_id: u16 = if known {
            id_of(b.nimap, new_node)
        } else {
            (max_id(b.nimap) + 1) as u16
        };
        let nodes1 = swapped_ids(nodes, part, invert, old_id, new_id);
        let names1 = if !known && replaced > 0 {
            b.nimap.insert(new_id, new_node)
        } else {
            b.nimap
        };
        if known {
            let w = choose|k: u16| b.nimap.contains_key(k) && b.nimap[k] == new_node;
            assert(is_id_of(b.nimap, new_node, least_id(b.nimap, new_node, w))) by {
                lemma_least_id(b.nimap, new_node, w);
            }
            lemma_id_of(b.nimap, new_node, least_id(b.nimap, new_node, w));
        }
        // The names of the nodes after the IDs are swapped.
        assert forall|i: int| 0 <= i < NODE_COUNT implies names1.contains_key(#[trigger] nodes1[i])
            && names1[nodes1[i]] == if reaches(part, invert, i) && nodes[i] == old_id {
            new_node
        } else {
            b.nimap[nodes[i]]
        } by {
            assert(b.nimap.contains_key(nodes[i]));
        }
        assert(names_distinct(names1)) by {
            if !known && replaced > 0 {
                assert forall|x: u16, y: u16|
                    names1.contains_key(x) && names1.contains_key(y) && x != y implies names1[x]
                    != names1[y] by {
                    if x == new_id {
                        assert(b.nimap.contains_key(y));
                    } else if y == new_id {
                        assert(b.nimap.contains_key(x));
                    }
                }
            }
        }
        if !nodes1.contains(old_id) {
            lemma_shift_keeps_distinct(names1, old_id);
            assert forall|i: int| 0 <= i < NODE_COUNT implies #[trigger] name_at(after, i) == if reaches(
                part,
                invert,
                i,
            ) && nodes[i] == old_id {
                new_node
            } else {
                name_at(b, i)
            } by {
                assert(nodes1[i] != old_id) by {
                    if nodes1[i] == old_id {
                        assert(nodes1.contains(old_id));
                    }
                }
                assert(names1.contains_key(nodes1[i]));
                lemma_shift_keeps_names(names1, nodes1, old_id, i);
            }
            assert forall|i: int|
                0 <= i < after.node_data.nodes.len() implies after.nimap.contains_key(
                #[trigger] after.node_data.nodes[i],
            ) by {
                assert(nodes1[i] != old_id) by {
                    if nodes1[i] == old_id {
                        assert(nodes1.contains(old_id));
                    }
                }
                assert(names1.contains_key(nodes1[i]));
                lemma_shift_keeps_names(names1, nodes1, old_id, i);
            }
        } else {
            assert(after == with_nodes(b, names1, nodes1));
            assert forall|i: int| 0 <= i < NODE_COUNT implies #[trigger] name_at(after, i) == if reaches(
                part,
                invert,
                i,
            ) && nodes[i] == old_id {
                new_node
            } else {
                name_at(b, i)
            } by {
                assert(names1.contains_key(nodes1[i]));
            }
            assert forall|i: int|
                0 <= i < after.node_data.nodes.len() implies after.nimap.contains_key(
                #[trigger] after.node_data.nodes[i],
            ) by {
                assert(names1.contains_key(nodes1[i]));
            }
        }
    } else if known {
        let w = choose|k: u16| b.nimap.contains_key(k) && b.nimap[k] == new_node;
        lemma_least_id(b.nimap, new_node, w);
        lemma_id_of(b.nimap, new_node, least_id(b.nimap, new_node, w));
        let found = id_of(b.nimap, new_node);
        let new_id: u16 = if found > old_id {
            (found - 1) as u16
        } else {
            found
        };
        let names2 = removed_shifted(b.nimap, old_id);
        let nodes2 = merged_ids(nodes, old_id, new_id);
        lemma_shift_keeps_distinct(b.nimap, old_id);
        assert(found != old_id);
        assert(names2.contains_key(new_id) && names2[new_id] == new_node);
        assert forall|i: int| 0 <= i < NODE_COUNT implies names2.contains_key(#[trigger] nodes2[i])
            && names2[nodes2[i]] == if nodes[i] == old_id {
            new_node
        } else {
            b.nimap[nodes[i]]
        } by {
            assert(b.nimap.contains_key(nodes[i]));
        }
        assert forall|i: int| 0 <= i < NODE_COUNT implies #[trigger] name_at(after, i) == if reaches(
            part,
            invert,
            i,
        ) && nodes[i] == old_id {
            new_node
        } else {
            name_at(b, i)
        } by {
            assert(names2.contains_key(nodes2[i]));
        }
        assert forall|i: int| 0 <= i < after.node_data.nodes.len() implies after.nimap.contains_key(
            #[trigger] after.node_data.nodes[i],
        ) by {
            assert(names2.contains_key(nodes2[i]));
        }
    } else {
        let names3 = b.nimap.insert(old_id, new_node);
        assert forall|x: u16, y: u16|
            names3.contains_key(x) && names3.contains_key(y) && x != y implies names3[x]
            != names3[y] by {
            if x == old_id {
                assert(b.nimap.contains_key(y));
            } else if y == old_id {
                assert(b.nimap.contains_key(x));
            }
        }
        assert forall|i: int| 0 <= i < NODE_COUNT implies #[trigger] name_at(after, i) == if reaches(
            part,
            invert,
            i,
        ) && nodes[i] == old_id {
            new_node
        } else {
            name_at(b, i)
        } by {
            assert(b.nimap.contains_key(nodes[i]));
        }
        assert forall|i: int| 0 <= i < after.node_data.nodes.len() implies after.nimap.contains_key(
            #[trigger] after.node_data.nodes[i],
        ) by {
            assert(b.nimap.contains_key(nodes[i]));
        }
    }
}

/// The lowest ID at or below `k` that has the name `name`.
pub open spec fn least_id(m: Map<u16, Seq<u8>>, name: Seq<u8>, k: u16) -> u16
    decreases k,
{
    if k == 0 {
        0
    } else if has_name_below(m, name, k) {
        least_id(m, name, (k - 1) as u16)
    } else {
        k
    }
}

/// Whether an ID below `k` has the name `name`.
pub open spec fn has_name_below(m: Map<u16, Seq<u8>>, name: Seq<u8>, k: u16) -> bool {
    exists|j: u16| j < k && m.contains_key(j) && m[j] == name
}

/// A name that an ID has, has a lowest ID.
pub proof fn lemma_least_id(m: Map<u16, Seq<u8>>, name: Seq<u8>, k: u16)
    requires
        m.contains_key(k),
        m[k] == name,
    ensures
        is_id_of(m, name, least_id(m, name, k)),
    decreases k,
{
    if k > 0 && has_name_below(m, name, k) {
        let j = choose|j: u16| j < k && m.contains_key(j) && m[j] == name;
        lemma_least_id_from(m, name, k, j);
    }
}

/// The lowest ID at or below `k` is the lowest ID at or below any ID under
/// `k` that has the name.
proof fn lemma_least_id_from(m: Map<u16, Seq<u8>>, name: Seq<u8>, k: u16, j: u16)
    requires
        j <= k,
        m.contains_key(j),
        m[j] == name,
    ensures
        is_id_of(m, name, least_id(m, name, k)),
    decreases k,
{
    if k == 0 {
    } else if has_name_below(m, name, k) {
        let c = choose|c: u16| c < k && m.contains_key(c) && m[c] == name;
        lemma_least_id_from(m, name, (k - 1) as u16, c);
    } else {
        assert(j == k);
        assert forall|x: u16| x < k && m.contains_key(x) implies m[x] != name by {
            if m[x] == name {
                assert(has_name_below(m, name, k));
            }
        }
    }
}

/// What replacing the node `old_node` by `new_node` makes of the block
/// `b`: nothing where the block does not have the name `old_node`.
pub open spec fn replace_step(
    b: MapBlockView,
    part: Option<Area>,
    invert: bool,
    old_node: Seq<u8>,
    new_node: Seq<u8>,
) -> MapBlockView {
    if has_name(b.nimap, old_node) {
        replaced_block(b, part, invert, id_of(b.nimap, old_node), new_node).0
    } else {
        b
    }
}

/// In a sound block with two IDs to spare, replacing a node by another
/// and then the other by the first restores the name of every node, if
/// none of the nodes that the edit reaches had the other name before.
pub proof fn lemma_replace_there_and_back(
    b: MapBlockView,
    part: Option<Area>,
    invert: bool,
    node_a: Seq<u8>,
    node_b: Seq<u8>,
    i: int,
)
    requires
        names_sound(b),
        node_a != node_b,
        max_id(b.nimap) + 1 < u16::MAX,
        forall|j: int| 0 <= j < NODE_COUNT && reaches(part, invert, j) ==> name_at(b, j) != node_b,
        0 <= i < NODE_COUNT,
    ensures
        name_at(
            replace_step(replace_step(b, part, invert, node_a, node_b), part, invert, node_b, node_a),
            i,
        ) == name_at(b, i),
{
    let b1 = replace_step(b, part, invert, node_a, node_b);
    let b2 = replace_step(b1, part, invert, node_b, node_a);
    lemma_max_bounds(b.nimap);
    // The first step.
    if has_name(b.nimap, node_a) {
        let w = choose|k: u16| b.nimap.contains_key(k) && b.nimap[k] == node_a;
        lemma_least_id(b.nimap, node_a, w);
        lemma_id_of(b.nimap, node_a, least_id(b.nimap, node_a, w));
        let id_a = id_of(b.nimap, node_a);
        lemma_max_exists(b.nimap, id_a, u16::MAX as int);
        lemma_replaced_names(b, part, invert, id_a, node_b);
        assert(name_at(b1, i) == if reaches(part, invert, i) && b.node_data.nodes[i] == id_a {
            node_b
        } else {
            name_at(b, i)
        });
        assert forall|j: int| 0 <= j < NODE_COUNT implies (b.node_data.nodes[j] == id_a
            <==> name_at(b, j) == node_a) by {
            assert(b.nimap.contains_key(b.node_data.nodes[j]));
        }
    }
    assert(names_sound(b1));
    assert forall|k: u16| b1.nimap.contains_key(k) implies k <= max_id(b.nimap) + 1 by {}
    // The second step.
    if has_name(b1.nimap, node_b) {
        let w = choose|k: u16| b1.nimap.contains_key(k) && b1.nimap[k] == node_b;
        lemma_least_id(b1.nimap, node_b, w);
        lemma_id_of(b1.nimap, node_b, least_id(b1.nimap, node_b, w));
        let id_b = id_of(b1.nimap, node_b);
        lemma_max_exists(b1.nimap, id_b, u16::MAX as int);
        lemma_replaced_names(b1, part, invert, id_b, node_a);
        assert(name_at(b2, i) == if reaches(part, invert, i) && b1.node_data.nodes[i] == id_b {
            node_a
        } else {
            name_at(b1, i)
        });
        assert(b1.nimap.contains_key(b1.node_data.nodes[i]));
        assert(b1.node_data.nodes[i] == id_b <==> name_at(b1, i) == node_b);
        if has_name(b.nimap, node_a) {
            assert(name_at(b1, i) == if reaches(part, invert, i) && name_at(b, i) == node_a {
                node_b
            } else {
                name_at(b, i)
            });
        }
    } else {
        assert(b1.nimap.contains_key(b1.node_data.nodes[i]));
        assert(name_at(b1, i) != node_b);
        if has_name(b.nimap, node_a) {
            assert(name_at(b1, i) == name_at(b, i));
        }
    }
}

} // verus!
