//! The label-correcting search: explores the grid from a box's cell in
//! order of lexicographic cost (impeded steps first, then non-impeded
//! steps), traversing empty cells freely and occupied cells whose occupant
//! could be displaced at the price of an impeded step.

use vstd::prelude::*;
use vstd::pervasive::unreached;
use std::collections::HashMap;
use crate::grid::{occ, Storage};
use crate::model::{BoxId, BoxPosition};
use crate::pq::{pq_contents, pq_new, pq_pop, pq_push, Frontier, Prio};

verus! {

/// The annotation of one search node: the cost accumulated so far, whether
/// the step that produced it was impeded, and the preceding cell.
#[derive(Debug, Copy, Clone, PartialEq, Eq)]
pub struct Label {
    pub impeded_moves: usize,
    pub non_impeded_moves: usize,
    pub impeded_move: bool,
    pub previous_box_position: Option<BoxPosition>,
}

impl Label {
    /// How many steps lead to this node.
    pub open spec fn total(self) -> int {
        self.impeded_moves + self.non_impeded_moves
    }
}

impl Storage {
    /// Every coordinate fits the packed cell key.
    pub open spec fn key_safe(self) -> bool {
        self.width <= 0x10000 && self.depth <= 0x10000 && self.height <= 0x10000
    }
}

/// The packed key of a cell, unique per cell while coordinates stay below
/// two to the sixteenth.
pub open spec fn key_of(p: BoxPosition) -> u64 {
    (p.x + 0x10000 * p.y + 0x1_0000_0000 * p.z) as u64
}

/// Pack a cell coordinate into its key.
fn pos_key(p: BoxPosition) -> (k: u64)
    requires
        p.x < 0x10000,
        p.y < 0x10000,
        p.z < 0x10000,
    ensures
        k == key_of(p),
{
    (p.x as u64) + 0x10000u64 * (p.y as u64) + 0x1_0000_0000u64 * (p.z as u64)
}

/// One search node is sound: it lies in the grid, its cost is bounded by the
/// number of finalised nodes, and it either is the start node with zero cost
/// or extends a finalised predecessor by exactly one lateral step whose kind
/// (impeded or not) matches the state of its cell.
pub open spec fn node_ok(
    s: Storage,
    start: BoxPosition,
    p: BoxPosition,
    l: Label,
    perm: Map<u64, (BoxPosition, Label)>,
) -> bool {
    &&& s.in_bounds(p)
    &&& l.total() <= perm.len()
    &&& match l.previous_box_position {
        None => p == start && l.impeded_moves == 0 && l.non_impeded_moves == 0
            && !l.impeded_move,
        Some(prev) => {
            &&& perm.contains_key(key_of(prev))
            &&& perm[key_of(prev)].0 == prev
            &&& prev.lateral_adjacent(p)
            &&& (if l.impeded_move {
                occ(s.cell(p)) && !s.box_above_spec(p) && l.impeded_moves == perm[key_of(
                    prev,
                )].1.impeded_moves + 1 && l.non_impeded_moves == perm[key_of(
                    prev,
                )].1.non_impeded_moves
            } else {
                !occ(s.cell(p)) && l.impeded_moves == perm[key_of(prev)].1.impeded_moves
                    && l.non_impeded_moves == perm[key_of(prev)].1.non_impeded_moves + 1
            })
        },
    }
}

/// Every finalised node is sound and filed under its own key.
pub open spec fn perm_ok(
    s: Storage,
    start: BoxPosition,
    perm: Map<u64, (BoxPosition, Label)>,
) -> bool {
    forall|k: u64| #[trigger]
        perm.contains_key(k) ==> key_of(perm[k].0) == k && node_ok(
            s,
            start,
            perm[k].0,
            perm[k].1,
            perm,
        )
}

/// A raw route as the search returns it: it begins at the box's current cell
/// with zero cost, ends at the target, visits no cell twice, and every step
/// is one lateral move whose label matches the state of the cell it enters.
pub open spec fn route_ok(
    s: Storage,
    box_id: BoxId,
    target: BoxPosition,
    path: Seq<(BoxPosition, Label)>,
) -> bool {
    &&& path.len() >= 1
    &&& s.box_positions@.contains_key(box_id)
    &&& path[0].0 == s.box_positions@[box_id]
    &&& s.in_bounds(path[0].0)
    &&& path[0].1.impeded_moves == 0
    &&& path[0].1.non_impeded_moves == 0
    &&& !path[0].1.impeded_move
    &&& path[0].1.previous_box_position is None
    &&& path[path.len() - 1].0 == target
    &&& (forall|i: int|
        0 < i < path.len() ==> {
            &&& (#[trigger] path[i]).1.previous_box_position == Some(path[i - 1].0)
            &&& path[i - 1].0.lateral_adjacent(path[i].0)
            &&& s.in_bounds(path[i].0)
            &&& (if path[i].1.impeded_move {
                occ(s.cell(path[i].0)) && !s.box_above_spec(path[i].0)
                    && path[i].1.impeded_moves == path[i - 1].1.impeded_moves + 1
                    && path[i].1.non_impeded_moves == path[i - 1].1.non_impeded_moves
            } else {
                !occ(s.cell(path[i].0)) && path[i].1.impeded_moves == path[i
                    - 1].1.impeded_moves && path[i].1.non_impeded_moves == path[i
                    - 1].1.non_impeded_moves + 1
            })
        })
    &&& (forall|i: int, j: int|
        0 <= i < j < path.len() ==> (#[trigger] path[i]).0 != (#[trigger] path[j]).0)
}

/// How many steps of the route are impeded.
pub open spec fn impeded_count(path: Seq<(BoxPosition, Label)>) -> int
    decreases path.len(),
{
    if path.len() == 0 {
        0
    } else {
        impeded_count(path.drop_last()) + if path.last().1.impeded_move {
            1 as int
        } else {
            0 as int
        }
    }
}

/// A sound route is sound for any grid with the same dimensions, index and
/// matrix.
pub proof fn lemma_route_ok_view_equal(
    a: Storage,
    b: Storage,
    box_id: BoxId,
    target: BoxPosition,
    path: Seq<(BoxPosition, Label)>,
)
    requires
        route_ok(a, box_id, target, path),
        b.width == a.width,
        b.depth == a.depth,
        b.height == a.height,
        b.box_positions@ == a.box_positions@,
        b.matrix@ == a.matrix@,
    ensures
        route_ok(b, box_id, target, path),
{
    assert forall|i: int|
        0 < i < path.len() implies {
        &&& (#[trigger] path[i]).1.previous_box_position == Some(path[i - 1].0)
        &&& path[i - 1].0.lateral_adjacent(path[i].0)
        &&& b.in_bounds(path[i].0)
        &&& (if path[i].1.impeded_move {
            occ(b.cell(path[i].0)) && !b.box_above_spec(path[i].0) && path[i].1.impeded_moves
                == path[i - 1].1.impeded_moves + 1 && path[i].1.non_impeded_moves == path[i
                - 1].1.non_impeded_moves
        } else {
            !occ(b.cell(path[i].0)) && path[i].1.impeded_moves == path[i - 1].1.impeded_moves
                && path[i].1.non_impeded_moves == path[i - 1].1.non_impeded_moves + 1
        })
    } by {
        assert(b.cell(path[i].0) == a.cell(path[i].0));
        if path[i].1.impeded_move {
            assert(b.cell(path[i].0.above()) == a.cell(path[i].0.above()));
        }
    }
}

/// Soundness of a node is kept when the finalised set grows by a fresh node.
proof fn lemma_node_ok_monotone(
    s: Storage,
    start: BoxPosition,
    p: BoxPosition,
    l: Label,
    perm: Map<u64, (BoxPosition, Label)>,
    k: u64,
    v: (BoxPosition, Label),
)
    requires
        node_ok(s, start, p, l, perm),
        !perm.contains_key(k),
        perm.dom().finite(),
    ensures
        node_ok(s, start, p, l, perm.insert(k, v)),
{
    vstd::set::axiom_set_insert_len(perm.dom(), k);
    assert(perm.insert(k, v).dom() =~= perm.dom().insert(k));
    assert(perm.insert(k, v).len() == perm.len() + 1);
}

/// Follow the chain of predecessors from a finalised node back to the start
/// node, and return the route from the start forward.
#[verifier::rlimit(60)]
pub fn trace_back(
    final_box_position: BoxPosition,
    final_label: Label,
    permanent_labels: &HashMap<u64, (BoxPosition, Label)>,
    storage: &Storage,
    box_id: BoxId,
) -> (path: Vec<(BoxPosition, Label)>)
    requires
        storage.key_safe(),
        storage.box_positions@.contains_key(box_id),
        perm_ok(*storage, storage.box_positions@[box_id], permanent_labels@),
        permanent_labels@.contains_key(key_of(final_box_position)),
        permanent_labels@[key_of(final_box_position)] == (final_box_position, final_label),
    ensures
        route_ok(*storage, box_id, final_box_position, path@),
        path@[path@.len() - 1] == (final_box_position, final_label),
        forall|i: int|
            0 <= i < path@.len() ==> permanent_labels@.contains_key(key_of(
                (#[trigger] path@[i]).0,
            )) && permanent_labels@[key_of(path@[i].0)] == path@[i],
{
    let ghost start = storage.box_positions@[box_id];
    let ghost perm = permanent_labels@;
    let mut rev: Vec<(BoxPosition, Label)> = Vec::new();
    rev.push((final_box_position, final_label));
    let mut current: (BoxPosition, Label) = (final_box_position, final_label);
    while current.1.previous_box_position.is_some()
        invariant
            storage.key_safe(),
            perm == permanent_labels@,
            perm_ok(*storage, start, perm),
            rev@.len() >= 1,
            rev@[0] == (final_box_position, final_label),
            rev@[rev@.len() - 1] == current,
            forall|i: int|
                0 <= i < rev@.len() ==> perm.contains_key(key_of((#[trigger] rev@[i]).0))
                    && perm[key_of(rev@[i].0)] == rev@[i],
            forall|i: int|
                0 <= i < rev@.len() - 1 ==> (#[trigger] rev@[i]).1.previous_box_position == Some(
                    rev@[i + 1].0,
                ),
            forall|i: int|
                0 <= i < rev@.len() ==> (#[trigger] rev@[i]).1.total() == current.1.total() + (
                rev@.len() - 1 - i),
        decreases current.1.total(),
    {
        let prev_pos = match current.1.previous_box_position {
            Some(p) => p,
            None => unreached(),
        };
        proof {
            assert(node_ok(*storage, start, current.0, current.1, perm));
            assert(perm.contains_key(key_of(prev_pos)));
        }
        let k = pos_key(prev_pos);
        let node: (BoxPosition, Label) = match permanent_labels.get(&k) {
            Some(n) => *n,
            None => unreached(),
        };
        rev.push(node);
        current = node;
    }
    proof {
        assert(node_ok(*storage, start, current.0, current.1, perm));
        assert(current.0 == start);
    }
    let mut path: Vec<(BoxPosition, Label)> = Vec::new();
    let n = rev.len();
    let mut i: usize = n;
    while i > 0
        invariant
            n == rev@.len(),
            i <= n,
            path@.len() == n - i,
            forall|j: int| 0 <= j < path@.len() ==> #[trigger] path@[j] == rev@[n - 1 - j],
        decreases i,
    {
        i = i - 1;
        path.push(rev[i]);
    }
    proof {
        let ghost pt = path@;
        assert(pt.len() == rev@.len());
        assert(pt[0] == rev@[rev@.len() - 1]);
        assert(pt[pt.len() - 1] == rev@[0]);
        assert forall|i2: int| 0 < i2 < pt.len() implies {
            &&& (#[trigger] pt[i2]).1.previous_box_position == Some(pt[i2 - 1].0)
            &&& pt[i2 - 1].0.lateral_adjacent(pt[i2].0)
            &&& storage.in_bounds(pt[i2].0)
            &&& (if pt[i2].1.impeded_move {
                occ(storage.cell(pt[i2].0)) && !storage.box_above_spec(pt[i2].0)
                    && pt[i2].1.impeded_moves == pt[i2 - 1].1.impeded_moves + 1
                    && pt[i2].1.non_impeded_moves == pt[i2 - 1].1.non_impeded_moves
            } else {
                !occ(storage.cell(pt[i2].0)) && pt[i2].1.impeded_moves == pt[i2
                    - 1].1.impeded_moves && pt[i2].1.non_impeded_moves == pt[i2
                    - 1].1.non_impeded_moves + 1
            })
        } by {
            let ri = rev@.len() - 1 - i2;
            assert(pt[i2] == rev@[ri]);
            assert(pt[i2 - 1] == rev@[ri + 1]);
            assert(rev@[ri].1.previous_box_position == Some(rev@[ri + 1].0));
            assert(perm.contains_key(key_of(rev@[ri].0)) && perm[key_of(rev@[ri].0)] == rev@[ri]);
            assert(node_ok(*storage, start, rev@[ri].0, rev@[ri].1, perm));
            assert(perm[key_of(rev@[ri + 1].0)] == rev@[ri + 1]);
        }
        assert forall|i2: int, j2: int| 0 <= i2 < j2 < pt.len() implies (#[trigger] pt[i2]).0 != (
        #[trigger] pt[j2]).0 by {
            if pt[i2].0 == pt[j2].0 {
                let ri = rev@.len() - 1 - i2;
                let rj = rev@.len() - 1 - j2;
                assert(pt[i2] == rev@[ri]);
                assert(pt[j2] == rev@[rj]);
                assert(perm[key_of(rev@[ri].0)] == rev@[ri]);
                assert(perm[key_of(rev@[rj].0)] == rev@[rj]);
                assert(key_of(rev@[ri].0) == key_of(rev@[rj].0));
                assert(rev@[ri] == rev@[rj]);
                assert(rev@[ri].1.total() != rev@[rj].1.total());
                assert(false);
            }
        }
        assert(node_ok(*storage, start, pt[0].0, pt[0].1, perm));
    }
    path
}

/// The search proper: a label-correcting pass whose frontier always
/// finalises a least entry under the lexicographic cost order. Returns a
/// sound raw route from the box's cell to the target, the start node first;
/// `None` when the box is unknown or no route was found. A box already at
/// the target yields the single-node trivial route.
#[verifier::loop_isolation(false)]
pub fn get_shortest_box_route_can_phase(
    box_id: BoxId,
    target_box_position: BoxPosition,
    storage: &Storage,
) -> (r: Option<Vec<(BoxPosition, Label)>>)
    requires
        storage.wf(),
        storage.key_safe(),
    ensures
        (match r {
            Some(path) => route_ok(*storage, box_id, target_box_position, path@),
            None => true,
        }),
        !storage.box_positions@.contains_key(box_id) ==> r is None,
        storage.box_positions@.contains_key(box_id) && storage.box_positions@[box_id]
            == target_box_position ==> (r matches Some(path) && path@.len() == 1 && path@[0] == (
        target_box_position,
        Label {
            impeded_moves: 0,
            non_impeded_moves: 0,
            impeded_move: false,
            previous_box_position: None,
        },
        )),
{
    let start = match storage.get_box_position(box_id) {
        Some(p) => p,
        None => {
            return None;
        },
    };
    let start_label = Label {
        impeded_moves: 0,
        non_impeded_moves: 0,
        impeded_move: false,
        previous_box_position: None,
    };
    if start.x == target_box_position.x && start.y == target_box_position.y && start.z
        == target_box_position.z {
        // Recognised before any expansion: the trivial single-node route.
        let mut path: Vec<(BoxPosition, Label)> = Vec::new();
        path.push((start, start_label));
        return Some(path);
    }
    let mut temporary_labels: Frontier = pq_new();
    let mut tentative: HashMap<u64, (BoxPosition, Label)> = HashMap::new();
    let mut permanent_labels: HashMap<u64, (BoxPosition, Label)> = HashMap::new();
    let sk = pos_key(start);
    pq_push(&mut temporary_labels, sk, (usize::MAX, usize::MAX));
    tentative.insert(sk, (start, start_label));
    // The frontier finalises a fresh cell each round, so the cell count
    // bounds the rounds; the budget makes the bound explicit.
    let mut fuel: usize = storage.matrix.len();
    while fuel > 0
        invariant
            search_inv(
                *storage,
                start,
                pq_contents(temporary_labels),
                tentative@,
                permanent_labels@,
            ),
            storage.box_positions@[box_id] == start,
        decreases fuel,
    {
        fuel = fuel - 1;
        let popped = pq_pop(&mut temporary_labels);
        let (k, _prio) = match popped {
            Some(kp) => kp,
            None => {
                return None;
            },
        };
        let node: (BoxPosition, Label) = match tentative.get(&k) {
            Some(n) => *n,
            None => unreached(),
        };
        proof {
            assert(node_ok(*storage, start, node.0, node.1, permanent_labels@));
        }
        let ghost perm_before = permanent_labels@;
        permanent_labels.insert(k, node);
        proof {
            vstd::set::axiom_set_insert_len(perm_before.dom(), k);
            assert(permanent_labels@.dom() =~= perm_before.dom().insert(k));
            assert(permanent_labels@.len() == perm_before.len() + 1);
            assert forall|k2: u64| #[trigger] permanent_labels@.contains_key(k2) implies key_of(
                permanent_labels@[k2].0,
            ) == k2 && node_ok(
                *storage,
                start,
                permanent_labels@[k2].0,
                permanent_labels@[k2].1,
                permanent_labels@,
            ) by {
                if k2 == k {
                    lemma_node_ok_monotone(
                        *storage,
                        start,
                        node.0,
                        node.1,
                        perm_before,
                        k,
                        node,
                    );
                } else {
                    assert(perm_before.contains_key(k2));
                    lemma_node_ok_monotone(
                        *storage,
                        start,
                        perm_before[k2].0,
                        perm_before[k2].1,
                        perm_before,
                        k,
                        node,
                    );
                }
            }
        }
        if node.0.x == target_box_position.x && node.0.y == target_box_position.y && node.0.z
            == target_box_position.z {
            proof {
                assert(node.0 == target_box_position);
            }
            let path = trace_back(node.0, node.1, &permanent_labels, storage, box_id);
            return Some(path);
        }
        proof {
            assert forall|k2: u64| #[trigger]
                pq_contents(temporary_labels).contains_key(k2) implies
                !permanent_labels@.contains_key(k2) && tentative@.contains_key(k2) && key_of(
                tentative@[k2].0,
            ) == k2 && node_ok(
                *storage,
                start,
                tentative@[k2].0,
                tentative@[k2].1,
                permanent_labels@,
            ) && pq_contents(temporary_labels)[k2] == (
                (usize::MAX - tentative@[k2].1.impeded_moves) as usize,
                (usize::MAX - tentative@[k2].1.non_impeded_moves) as usize,
            ) by {
                lemma_node_ok_monotone(
                    *storage,
                    start,
                    tentative@[k2].0,
                    tentative@[k2].1,
                    perm_before,
                    k,
                    node,
                );
            }
        }
        let plen = permanent_labels.len();
        proof {
            assert(node.1.total() + 1 <= plen);
        }
        let adjacents = storage.adjacent_box_positions(node.0);
        let mut ai: usize = 0;
        while ai < adjacents.len()
            invariant
                search_inv(
                    *storage,
                    start,
                    pq_contents(temporary_labels),
                    tentative@,
                    permanent_labels@,
                ),
                permanent_labels@.contains_key(k),
                permanent_labels@[k] == node,
                key_of(node.0) == k,
                node.1.total() + 1 <= plen,
                plen == permanent_labels@.len(),
                forall|i: int|
                    0 <= i < adjacents@.len() ==> storage.in_bounds(#[trigger] adjacents@[i])
                        && node.0.lateral_adjacent(adjacents@[i]),
            decreases adjacents@.len() - ai,
        {
            let adj = adjacents[ai];
            let ak = pos_key(adj);
            if !permanent_labels.contains_key(&ak) {
                let new_label_opt: Option<Label> = if !storage.is_occupied(adj) {
                    Some(
                        Label {
                            impeded_moves: node.1.impeded_moves,
                            non_impeded_moves: node.1.non_impeded_moves + 1,
                            impeded_move: false,
                            previous_box_position: Some(node.0),
                        },
                    )
                } else if !storage.box_above(adj) {
                    Some(
                        Label {
                            impeded_moves: node.1.impeded_moves + 1,
                            non_impeded_moves: node.1.non_impeded_moves,
                            impeded_move: true,
                            previous_box_position: Some(node.0),
                        },
                    )
                } else {
                    None
                };
                match new_label_opt {
                    Some(nl) => {
                        proof {
                            assert(node_ok(*storage, start, adj, nl, permanent_labels@));
                        }
                        let better: bool = match tentative.get(&ak) {
                            None => true,
                            Some(old_node) => nl.impeded_moves < old_node.1.impeded_moves || (
                            nl.impeded_moves == old_node.1.impeded_moves && nl.non_impeded_moves
                                < old_node.1.non_impeded_moves),
                        };
                        if better {
                            pq_push(
                                &mut temporary_labels,
                                ak,
                                (
                                    usize::MAX - nl.impeded_moves,
                                    usize::MAX - nl.non_impeded_moves,
                                ),
                            );
                            tentative.insert(ak, (adj, nl));
                        }
                    },
                    None => {},
                }
            }
            ai = ai + 1;
        }
    }
    None
}

/// The running invariant of the search: finalised nodes are sound, frontier
/// keys are exactly the live tentative keys, and every frontier entry is a
/// sound node filed under its key with its inverted cost as priority.
pub open spec fn search_inv(
    s: Storage,
    start: BoxPosition,
    qc: Map<u64, Prio>,
    tent: Map<u64, (BoxPosition, Label)>,
    perm: Map<u64, (BoxPosition, Label)>,
) -> bool {
    &&& perm_ok(s, start, perm)
    &&& (forall|k: u64| #[trigger]
        qc.contains_key(k) ==> !perm.contains_key(k) && tent.contains_key(k) && key_of(tent[k].0)
            == k && node_ok(s, start, tent[k].0, tent[k].1, perm) && qc[k] == (
        (usize::MAX - tent[k].1.impeded_moves) as usize,
        (usize::MAX - tent[k].1.non_impeded_moves) as usize,
        ))
    &&& (forall|k: u64|
        !perm.contains_key(k) ==> ((#[trigger] qc.contains_key(k)) <==> tent.contains_key(k)))
}

} // verus!
