use vstd::prelude::*;

use crate::container::{
    contents_weight, find_within, first_id_index, fits_in, has_id, lemma_concat_weight, lemma_contents_weight,
    lemma_first_id_index, lemma_replaced_keeps_finds, lemma_same_container, lemma_same_container_refl, lemma_same_container_trans, lemma_same_contents_weight, lemma_same_weight,
    replaced_within, same_container, weight_of, without_ids, Container,
};
use crate::level::Level;
use crate::map::{changed_found, find_container_spec};
use crate::scope::{
    source_container, target_container, target_item, MoveItemsRequestV2, MoveItemsResponseV2, PlayerInventoryContainer, SourceContainerScope,
    DropItemsRequest, DropItemsResponse, TakeItemsRequest, TakeItemsResponse, TargetContainerScope, UpdatedScopes, WorldContainer,
};
use crate::text::{decimal, push_decimal};
use crate::errors::{ErrorType, ErrorWrapper};
use crate::map::GameMap;
use crate::position::Position;
use crate::items::{Item, ItemView};

verus! {

/// The containers inside `source` that stand for the given items, in the
/// order of the items; an item with no container there is passed over.
pub open spec fn found_copies(source: Container, items: Seq<Item>) -> Seq<Container>
    decreases items.len(),
{
    if items.len() == 0 {
        Seq::empty()
    } else {
        let rest = found_copies(source, items.drop_last());
        match find_within(source, items.last()@.id) {
            Some(c) => rest.push(c),
            None => rest,
        }
    }
}

/// Copies of the containers inside `source` that stand for the items to copy,
/// in the order of the items; items not found there are left out.
pub fn find_copying_items(source: Container, to_copy: Vec<Item>) -> (results: Vec<Container>)
    ensures
        results@.len() == found_copies(source, to_copy@).len(),
        forall|i: int| 0 <= i < results@.len() ==> same_container(#[trigger] results@[i], found_copies(source, to_copy@)[i]),
{
    let mut results: Vec<Container> = Vec::new();
    let mut i: usize = 0;
    while i < to_copy.len()
        invariant
            i <= to_copy@.len(),
            results@.len() == found_copies(source, to_copy@.take(i as int)).len(),
            forall|k: int| 0 <= k < results@.len() ==> same_container(#[trigger] results@[k], found_copies(source, to_copy@.take(i as int))[k]),
        decreases to_copy@.len() - i,
    {
        let item = &to_copy[i];
        proof {
            assert(to_copy@.take(i + 1).drop_last() =~= to_copy@.take(i as int));
            assert(to_copy@.take(i + 1).last() == to_copy@[i as int]);
        }
        if let Some(container_item) = source.find(item) {
            results.push(container_item.clone());
        }
        i += 1;
    }
    assert(to_copy@.take(to_copy@.len() as int) =~= to_copy@);
    results
}


/// The first container found inside one of the given containers, searching
/// each in turn (each within itself, not the container itself).
pub open spec fn child_search(cs: Seq<Container>, id: u128) -> Option<Container>
    decreases cs.len(),
{
    if cs.len() == 0 {
        None
    } else {
        match find_within(cs[0], id) {
            Some(found) => Some(found),
            None => child_search(cs.drop_first(), id),
        }
    }
}

/// Whether `news` is `olds` with the container `child_search` finds for `id`
/// replaced by `sub` where it stands.
pub open spec fn child_replaced(olds: Seq<Container>, news: Seq<Container>, id: u128, sub: Container) -> bool
    decreases olds.len(),
{
    if olds.len() == 0 {
        news.len() == 0
    } else {
        &&& news.len() == olds.len()
        &&& if find_within(olds[0], id) is Some {
            replaced_within(olds[0], news[0], id, sub) && news.drop_first() == olds.drop_first()
        } else {
            news[0] == olds[0] && child_replaced(olds.drop_first(), news.drop_first(), id, sub)
        }
    }
}

proof fn lemma_first_child_match(olds: Seq<Container>, id: u128, k: int, x: Container, sub: Container)
    requires
        0 <= k < olds.len(),
        find_within(olds[k], id) is Some,
        forall|j: int| 0 <= j < k ==> (#[trigger] find_within(olds[j], id)) is None,
    ensures
        child_search(olds, id) == find_within(olds[k], id),
        replaced_within(olds[k], x, id, sub) ==> child_replaced(olds, olds.update(k, x), id, sub),
    decreases k,
{
    let news = olds.update(k, x);
    if k == 0 {
        assert(news.drop_first() =~= olds.drop_first());
    } else {
        let rest = olds.drop_first();
        assert(find_within(olds[0], id) is None);
        assert forall|j: int| 0 <= j < k - 1 implies (#[trigger] find_within(rest[j], id)) is None by {
            assert(rest[j] == olds[j + 1]);
        }
        lemma_first_child_match(rest, id, k - 1, x, sub);
        assert(news.drop_first() =~= rest.update(k - 1, x));
    }
}

proof fn lemma_no_child_match(cs: Seq<Container>, id: u128)
    requires
        forall|j: int| 0 <= j < cs.len() ==> (#[trigger] find_within(cs[j], id)) is None,
    ensures
        child_search(cs, id) is None,
    decreases cs.len(),
{
    if cs.len() > 0 {
        let rest = cs.drop_first();
        assert(find_within(cs[0], id) is None);
        assert forall|j: int| 0 <= j < rest.len() implies (#[trigger] find_within(rest[j], id)) is None by {
            assert(rest[j] == cs[j + 1]);
        }
        lemma_no_child_match(rest, id);
    }
}

/// The index of the first of the containers that holds inside it the one for
/// the item.
fn child_index(cs: &Vec<Container>, item: &Item) -> (r: Option<usize>)
    ensures
        match r {
            Some(k) => k < cs@.len() && find_within(cs@[k as int], item@.id) is Some
                && forall|j: int| 0 <= j < k ==> (#[trigger] find_within(cs@[j], item@.id)) is None,
            None => forall|j: int| 0 <= j < cs@.len() ==> (#[trigger] find_within(cs@[j], item@.id)) is None,
        },
{
    let mut i: usize = 0;
    while i < cs.len()
        invariant
            i <= cs@.len(),
            forall|j: int| 0 <= j < i ==> (#[trigger] find_within(cs@[j], item@.id)) is None,
        decreases cs@.len() - i,
    {
        if cs[i].find(item).is_some() {
            return Some(i);
        }
        i += 1;
    }
    None
}

/// The container on the map at `position` that stands for the same item as
/// `container`: the container lying there, or else the first found inside one
/// of its children. Fails with an internal error when nothing lies at the
/// position, or when neither the container there nor a search inside its
/// children finds it.
pub fn find_container_mut<'a>(map: &'a mut GameMap, position: Position, container: &Container)
    -> (r: Result<&'a mut Container, ErrorWrapper>)
    requires
        old(map).wf(),
    ensures
        final(map).wf(),
        final(map).area == old(map).area,
        final(map).tiles == old(map).tiles,
        final(map).rooms == old(map).rooms,
        forall|q: Position| q != position ==> #[trigger] final(map).containers.get_spec(q) == old(map).containers.get_spec(q),
        match r {
            Ok(c) => match old(map).containers.get_spec(position) {
                Some(pc) => if pc.id() == container.id() {
                    &&& *c == pc
                    &&& final(map).containers.get_spec(position) == Some(*final(c))
                } else {
                    &&& child_search(pc.inside(), container.id()) == Some(*c)
                    &&& final(map).containers.get_spec(position) matches Some(n)
                    &&& n.self_item() == pc.self_item()
                    &&& n.kind() == pc.kind()
                    &&& n.limit() == pc.limit()
                    &&& child_replaced(pc.inside(), n.inside(), container.id(), *final(c))
                },
                None => false,
            },
            Err(e) => {
                &&& e.wf()
                &&& e.error_type == ErrorType::INTERNAL
                &&& final(map).containers.get_spec(position) == old(map).containers.get_spec(position)
                &&& match old(map).containers.get_spec(position) {
                    Some(pc) => {
                        &&& pc.id() != container.id()
                        &&& child_search(pc.inside(), container.id()) is None
                        &&& e.internal_message.unwrap()@ == "Failed to find container on the map after searching position and children"@
                    },
                    None => e.internal_message.unwrap()@ == "Failed to find any container on the map at position"@,
                }
            },
        },
{
    let ghost final_map = *final(map);
    match map.containers.get_mut(&position) {
        Some(pos_container) => {
            if pos_container.id_equals(container) {
                Ok(pos_container)
            } else {
                let item = container.get_self_item();
                match child_index(pos_container.get_contents(), item) {
                    Some(k) => {
                        let ghost before = *pos_container;
                        let ghost final_pc = *final(pos_container);
                        let contents = pos_container.get_contents_mut();
                        let ghost final_contents = *final(contents);
                        let ghost olds = contents@;
                        let child = &mut contents[k];
                        let ghost final_child = *final(child);
                        match child.find_mut(item) {
                            Some(c) => {
                                proof {
                                    lemma_first_child_match(olds, item@.id, k as int, final_child, *final(c));
                                    assert(final_map.containers.get_spec(position) == Some(final_pc));
                                }
                                Ok(c)
                            },
                            None => {
                                proof {
                                    assert(false);
                                }
                                Err(ErrorWrapper::new_internal(String::from_str("Failed to find container on the map after searching position and children")))
                            },
                        }
                    },
                    None => {
                        proof {
                            lemma_no_child_match(pos_container.inside(), item@.id);
                            reveal_strlit("Failed to find container on the map after searching position and children");
                        }
                        Err(ErrorWrapper::new_internal(String::from_str("Failed to find container on the map after searching position and children")))
                    },
                }
            }
        },
        None => {
            proof {
                reveal_strlit("Failed to find any container on the map at position");
            }
            Err(ErrorWrapper::new_internal(String::from_str("Failed to find any container on the map at position")))
        },
    }
}


/// The items, in order, for which `source` holds no container.
pub open spec fn unfound_items(source: Container, items: Seq<Item>) -> Seq<Item>
    decreases items.len(),
{
    if items.len() == 0 {
        Seq::empty()
    } else {
        let rest = unfound_items(source, items.drop_last());
        match find_within(source, items.last()@.id) {
            Some(_) => rest,
            None => rest.push(items.last()),
        }
    }
}

/// The contents `cs` after moving `moving` to the place of the container at
/// index `pos`: the moved ones are taken out, then put back, in order, at
/// that index less their number when it is at least their number.
pub open spec fn rearranged_contents(cs: Seq<Container>, moving: Seq<Container>, pos: int) -> Seq<Container> {
    let kept = without_ids(cs, moving);
    let at = if pos >= moving.len() { pos - moving.len() } else { pos };
    kept.take(at) + moving + kept.skip(at)
}

/// Whether the target is a place beside an item.
pub open spec fn targets_item_position(t: TargetContainerScope) -> bool {
    t is PlayerInventoryItemPosition || t is WorldContainerItemPosition
}

/// The answer's message: how many of the requested items moved.
pub open spec fn moved_message(moved: nat, requested: nat) -> Seq<char> {
    "Moved "@ + decimal(moved) + " of "@ + decimal(requested) + " items"@
}

/// What moving items to a place beside an item needs so as not to fail: the
/// place to put them back lies within what is left of the source, and a place
/// in a container on the map is only asked of a source on the map.
pub open spec fn position_move_fits(request: MoveItemsRequestV2) -> bool {
    let src = source_container(request.source);
    let id = target_item(request.target)@.id;
    let moving = found_copies(src, request.to_move@);
    let pos = first_id_index(src.inside(), id);
    targets_item_position(request.target) && has_id(src.inside(), id) ==> {
        &&& (if pos >= moving.len() { pos - moving.len() } else { pos }) <= without_ids(src.inside(), moving).len()
        &&& request.target is WorldContainerItemPosition ==> request.source is WorldContainer
    }
}

/// Whether two sources are the same scope with the same containers.
pub open spec fn same_source(a: SourceContainerScope, b: SourceContainerScope) -> bool {
    match (a, b) {
        (SourceContainerScope::PlayerInventory(x), SourceContainerScope::PlayerInventory(y)) => same_container(x.container, y.container),
        (SourceContainerScope::WorldContainer(x), SourceContainerScope::WorldContainer(y)) =>
            same_container(x.container, y.container) && x.position == y.position,
        _ => false,
    }
}

/// Whether two targets are the same scope with the same containers or items.
pub open spec fn same_target(a: TargetContainerScope, b: TargetContainerScope) -> bool {
    match (a, b) {
        (TargetContainerScope::PlayerInventory(x), TargetContainerScope::PlayerInventory(y)) => same_container(x.container, y.container),
        (TargetContainerScope::WorldContainer(x), TargetContainerScope::WorldContainer(y)) =>
            same_container(x.container, y.container) && x.position == y.position,
        (TargetContainerScope::PlayerInventoryItemPosition(x), TargetContainerScope::PlayerInventoryItemPosition(y)) => x == y,
        (TargetContainerScope::WorldContainerItemPosition(x), TargetContainerScope::WorldContainerItemPosition(y)) => x == y,
        _ => false,
    }
}

/// Whether a request is a copy of another.
pub open spec fn same_request(a: MoveItemsRequestV2, b: MoveItemsRequestV2) -> bool {
    &&& same_source(a.source, b.source)
    &&& same_target(a.target, b.target)
    &&& a.to_move@ == b.to_move@
}

fn copy_container(c: &Container) -> (r: Container)
    ensures
        same_container(r, *c),
{
    c.clone()
}

/// A copy of the request.
fn copy_request(request: &MoveItemsRequestV2) -> (r: MoveItemsRequestV2)
    ensures
        same_request(r, *request),
{
    let source = match &request.source {
        SourceContainerScope::PlayerInventory(p) =>
            SourceContainerScope::PlayerInventory(PlayerInventoryContainer { container: copy_container(&p.container) }),
        SourceContainerScope::WorldContainer(w) =>
            SourceContainerScope::WorldContainer(WorldContainer { container: copy_container(&w.container), position: w.position }),
    };
    let target = match &request.target {
        TargetContainerScope::PlayerInventory(p) =>
            TargetContainerScope::PlayerInventory(PlayerInventoryContainer { container: copy_container(&p.container) }),
        TargetContainerScope::WorldContainer(w) =>
            TargetContainerScope::WorldContainer(WorldContainer { container: copy_container(&w.container), position: w.position }),
        TargetContainerScope::PlayerInventoryItemPosition(p) =>
            TargetContainerScope::PlayerInventoryItemPosition(crate::scope::PlayerInventoryItemPosition {
                target_position_item: p.target_position_item.clone(),
            }),
        TargetContainerScope::WorldContainerItemPosition(w) =>
            TargetContainerScope::WorldContainerItemPosition(crate::scope::WorldContainerItemPosition {
                target_position_item: w.target_position_item.clone(),
                position: w.position,
            }),
    };
    let mut to_move: Vec<Item> = Vec::new();
    let mut i: usize = 0;
    while i < request.to_move.len()
        invariant
            i <= request.to_move@.len(),
            to_move@ == request.to_move@.take(i as int),
        decreases request.to_move@.len() - i,
    {
        to_move.push(request.to_move[i].clone());
        proof {
            assert(request.to_move@.take(i + 1) =~= request.to_move@.take(i as int).push(request.to_move@[i as int]));
        }
        i += 1;
    }
    proof {
        assert(request.to_move@.take(i as int) =~= request.to_move@);
    }
    MoveItemsRequestV2 { source, target, to_move }
}

proof fn lemma_without_same_ids(cs: Seq<Container>, a: Seq<Container>, b: Seq<Container>)
    requires
        a.len() == b.len(),
        forall|i: int| 0 <= i < a.len() ==> (#[trigger] a[i]).id() == b[i].id(),
    ensures
        without_ids(cs, a) == without_ids(cs, b),
    decreases cs.len(),
{
    if cs.len() > 0 {
        lemma_without_same_ids(cs.drop_last(), a, b);
        let id = cs.last().id();
        if has_id(a, id) {
            let i = choose|i: int| 0 <= i < a.len() && (#[trigger] a[i]).id() == id;
            assert(b[i].id() == id);
        }
        if has_id(b, id) {
            let i = choose|i: int| 0 <= i < b.len() && (#[trigger] b[i]).id() == id;
            assert(a[i].id() == id);
        }
    }
}

/// The answer of a move to the place of an item (see
/// `move_items_to_source_position`): the request, the source rearranged by
/// `rearranged_contents`, the target, the items not found and the message.
pub open spec fn position_move_answer(request: MoveItemsRequestV2, resp: MoveItemsResponseV2) -> bool {
    let src = source_container(request.source);
    let id = target_item(request.target)@.id;
    let moving = found_copies(src, request.to_move@);
    let expected = rearranged_contents(src.inside(), moving, first_id_index(src.inside(), id));
    &&& same_request(resp.request, request)
    &&& resp.success
    &&& resp.unmoved@ == unfound_items(src, request.to_move@)
    &&& resp.message@ == moved_message(moving.len(), request.to_move@.len())
    &&& resp.updated_scopes.target == request.target
    &&& request.target is PlayerInventoryItemPosition ==> resp.updated_scopes.source is PlayerInventory
    &&& request.target is WorldContainerItemPosition ==> (resp.updated_scopes.source matches SourceContainerScope::WorldContainer(w)
        && request.source matches SourceContainerScope::WorldContainer(v) && w.position == v.position)
    &&& source_container(resp.updated_scopes.source).self_item() == src.self_item()
    &&& source_container(resp.updated_scopes.source).kind() == src.kind()
    &&& source_container(resp.updated_scopes.source).limit() == src.limit()
    &&& source_container(resp.updated_scopes.source).inside().len() == expected.len()
    &&& forall|i: int| 0 <= i < expected.len()
        ==> same_container(#[trigger] source_container(resp.updated_scopes.source).inside()[i], expected[i])
}

/// Moves the requested items, within the source container, to the place of
/// the item the target names (a place beside an item in the player's
/// inventory or in a container on the map). Each requested item that the
/// source holds (at any depth) is copied; the source's own containers that
/// stand for a copied item are taken out, and the copies go back, in order,
/// at the target item's index less their number when it is at least their
/// number. The answer carries the request, the rearranged source (in the
/// player's inventory, or on the map at the source's position), the target,
/// the items not found and a message. Nothing is moved, and nothing is
/// answered, when the target is not a place beside an item or the source
/// holds no container for that item directly.
pub fn move_items_to_source_position(request: MoveItemsRequestV2) -> (r: Option<MoveItemsResponseV2>)
    requires
        position_move_fits(request),
    ensures
        match r {
            None => !(targets_item_position(request.target)
                && has_id(source_container(request.source).inside(), target_item(request.target)@.id)),
            Some(resp) => {
                &&& targets_item_position(request.target)
                &&& has_id(source_container(request.source).inside(), target_item(request.target)@.id)
                &&& position_move_answer(request, resp)
            },
        },
{
    let ghost req = request;
    let request_result_copy = copy_request(&request);
    let MoveItemsRequestV2 { source, target, to_move } = request;
    let mut source_container_v;
    let source_position;
    match source {
        SourceContainerScope::WorldContainer(wc) => {
            source_container_v = wc.container;
            source_position = Some(wc.position);
        },
        SourceContainerScope::PlayerInventory(pic) => {
            source_container_v = pic.container;
            source_position = None;
        },
    }
    let ghost src = source_container_v;
    let target_position_item;
    let to_world;
    match &target {
        TargetContainerScope::PlayerInventoryItemPosition(piip) => {
            target_position_item = piip.target_position_item.clone();
            to_world = false;
        },
        TargetContainerScope::WorldContainerItemPosition(wcip) => {
            target_position_item = wcip.target_position_item.clone();
            to_world = true;
        },
        _ => {
            return None;
        },
    }
    let ghost id = target_position_item@.id;
    let found_pos = source_container_v.item_position(&target_position_item);
    if found_pos.is_none() {
        return None;
    }
    let pos = found_pos.unwrap();

    let mut unmoved: Vec<Item> = Vec::new();
    let mut moving: Vec<Container> = Vec::new();
    let mut to_insert: Vec<Container> = Vec::new();
    let mut i: usize = 0;
    while i < to_move.len()
        invariant
            i <= to_move@.len(),
            source_container_v == src,
            moving@.len() == found_copies(src, to_move@.take(i as int)).len(),
            to_insert@.len() == moving@.len(),
            forall|k: int| 0 <= k < moving@.len() ==> same_container(#[trigger] moving@[k], found_copies(src, to_move@.take(i as int))[k]),
            forall|k: int| 0 <= k < to_insert@.len() ==> same_container(#[trigger] to_insert@[k], found_copies(src, to_move@.take(i as int))[k]),
            unmoved@ == unfound_items(src, to_move@.take(i as int)),
        decreases to_move@.len() - i,
    {
        let item = &to_move[i];
        proof {
            assert(to_move@.take(i + 1).drop_last() =~= to_move@.take(i as int));
            assert(to_move@.take(i + 1).last() == to_move@[i as int]);
        }
        if let Some(container_item) = source_container_v.find(item) {
            moving.push(copy_container(container_item));
            to_insert.push(copy_container(container_item));
        } else {
            unmoved.push(item.clone());
        }
        i += 1;
    }
    proof {
        assert(to_move@.take(to_move@.len() as int) =~= to_move@);
    }
    let ghost found = found_copies(src, to_move@);
    let ghost moving_v = moving@;
    let ghost insert_v = to_insert@;
    let moved_count = moving.len();
    proof {
        assert forall|k: int| 0 <= k < moving_v.len() implies (#[trigger] moving_v[k]).id() == found[k].id() by {
            lemma_same_container(moving_v[k], found[k]);
        }
        lemma_without_same_ids(src.inside(), moving_v, found);
        lemma_first_id_index(src.inside(), id);
        assert(src == source_container(req.source));
        assert(target_item(req.target)@.id == id);
        assert(to_move@ == req.to_move@);
        assert(targets_item_position(req.target));
        assert(has_id(src.inside(), id));
        assert(pos == first_id_index(src.inside(), id));
        assert(position_move_fits(req));
        assert(moved_count == found.len());
        assert((if pos >= moved_count { pos - moved_count } else { pos as int }) <= without_ids(src.inside(), found).len());
    }
    source_container_v.remove_matching_items(moving);
    let target_pos = if pos >= moved_count { pos - moved_count } else { pos };
    source_container_v.insert(target_pos, to_insert);
    proof {
        let kept = without_ids(src.inside(), found);
        let expected = rearranged_contents(src.inside(), found, pos as int);
        let now = source_container_v.inside();
        assert(now == kept.take(target_pos as int) + insert_v + kept.skip(target_pos as int));
        assert forall|k: int| 0 <= k < expected.len() implies same_container(#[trigger] now[k], expected[k]) by {
            if k < target_pos {
                assert(now[k] == kept[k]);
                assert(expected[k] == kept[k]);
                lemma_same_container_refl(kept[k]);
            } else if k < target_pos + insert_v.len() {
                assert(now[k] == insert_v[k - target_pos]);
                assert(expected[k] == found[k - target_pos]);
            } else {
                assert(now[k] == kept[k - insert_v.len()]);
                assert(expected[k] == kept[k - found.len()]);
                lemma_same_container_refl(kept[k - insert_v.len()]);
            }
        }
    }

    proof {
        reveal_strlit("Moved ");
        reveal_strlit(" of ");
        reveal_strlit(" items");
    }
    let mut message = String::from_str("Moved ");
    push_decimal(&mut message, moved_count as u64);
    message.append(" of ");
    push_decimal(&mut message, to_move.len() as u64);
    message.append(" items");

    let updated_source = if to_world {
        SourceContainerScope::WorldContainer(WorldContainer { container: source_container_v, position: source_position.unwrap() })
    } else {
        SourceContainerScope::PlayerInventory(PlayerInventoryContainer { container: source_container_v })
    };
    Some(MoveItemsResponseV2 {
        request: request_result_copy,
        success: true,
        updated_scopes: UpdatedScopes { source: updated_source, target },
        unmoved,
        message,
    })
}


/// What taking `items` out of `source` into the inventory `inv` takes and
/// leaves: in the order of the items, the container found for each in
/// `source` is taken when it fits beside what the inventory holds and what
/// was taken before; an item not found, or whose container does not fit, is
/// left.
pub open spec fn take_plan(inv: Container, source: Container, items: Seq<Item>) -> (Seq<Container>, Seq<Item>)
    decreases items.len(),
{
    if items.len() == 0 {
        (Seq::empty(), Seq::empty())
    } else {
        let (taken, left) = take_plan(inv, source, items.drop_last());
        let item = items.last();
        match find_within(source, item@.id) {
            Some(c) => if contents_weight(inv.inside()) + contents_weight(taken) + weight_of(c) <= inv.limit() * 1000 {
                (taken.push(c), left)
            } else {
                (taken, left.push(item))
            },
            None => (taken, left.push(item)),
        }
    }
}

/// The message of a take of `total` items, `taken` of which were taken and
/// `left` left.
pub open spec fn take_message(taken: nat, left: nat, total: nat) -> Seq<char> {
    if taken == 0 {
        "You cannot take anything"@
    } else if left == 0 && taken == total {
        "You take all "@ + decimal(total) + " items"@
    } else {
        "You took "@ + decimal(taken) + " of the "@ + decimal(total) + " items, but could not carry any more"@
    }
}

/// Whether `inv1` is `inv0` with the containers `added` (one for one the
/// same as them) placed last inside it.
pub open spec fn appended(inv0: Container, inv1: Container, added: Seq<Container>) -> bool {
    &&& inv1.self_item() == inv0.self_item()
    &&& inv1.kind() == inv0.kind()
    &&& inv1.limit() == inv0.limit()
    &&& inv1.inside().len() == inv0.inside().len() + added.len()
    &&& inv1.inside().take(inv0.inside().len() as int) == inv0.inside()
    &&& forall|i: int| 0 <= i < added.len() ==> same_container(#[trigger] inv1.inside()[inv0.inside().len() + i], added[i])
}

/// Whether the map `m1` is `m0` after the containers standing for the items
/// of `removed` were taken out of the container found at `pos` for
/// `source` (the one lying there, or the first one inside it); nothing else
/// changes.
pub open spec fn removed_at(m0: GameMap, m1: GameMap, source: Container, pos: Position, removed: Seq<Container>) -> bool {
    &&& m1.wf()
    &&& m1.area == m0.area
    &&& m1.tiles == m0.tiles
    &&& m1.rooms == m0.rooms
    &&& forall|q: Position| q != pos ==> #[trigger] m1.containers.get_spec(q) == m0.containers.get_spec(q)
    &&& match find_container_spec(m0, source, pos) {
        Some(f) => exists|sub: Container| {
            &&& #[trigger] changed_found(m0.containers.get_spec(pos).unwrap(), m1.containers.get_spec(pos).unwrap(), source.id(), sub)
            &&& m1.containers.get_spec(pos) is Some
            &&& sub.self_item() == f.self_item()
            &&& sub.kind() == f.kind()
            &&& sub.limit() == f.limit()
            &&& sub.inside() == without_ids(f.inside(), removed)
        },
        None => m1.containers.get_spec(pos) == m0.containers.get_spec(pos),
    }
}

proof fn lemma_take_plan_len(inv: Container, source: Container, items: Seq<Item>)
    ensures
        take_plan(inv, source, items).0.len() + take_plan(inv, source, items).1.len() == items.len(),
    decreases items.len(),
{
    if items.len() > 0 {
        lemma_take_plan_len(inv, source, items.drop_last());
    }
}

/// A take never loads the inventory past its weight limit: when it takes
/// anything, what the inventory held and what it took together weigh at most
/// the limit. Every requested item is either taken or left.
pub proof fn lemma_take_respects_weight_limit(inv: Container, source: Container, items: Seq<Item>)
    ensures
        take_plan(inv, source, items).0.len() > 0 ==> contents_weight(inv.inside())
            + contents_weight(take_plan(inv, source, items).0) <= inv.limit() * 1000,
        take_plan(inv, source, items).0.len() + take_plan(inv, source, items).1.len() == items.len(),
    decreases items.len(),
{
    lemma_take_plan_len(inv, source, items);
    if items.len() > 0 {
        lemma_take_respects_weight_limit(inv, source, items.drop_last());
        lemma_contents_weight(take_plan(inv, source, items.drop_last()).0);
    }
}

/// Takes the requested items from `data.source` into the player's inventory:
/// each item's container in the source (at any depth) is added to the
/// inventory when it fits, in the order of the request (see `take_plan`);
/// then, when there was anything to take, the taken ones are removed from
/// the source's container on the map at `data.position`. Fails when the level
/// has no player, and when there is something to take but no position.
pub fn player_take_items(data: TakeItemsRequest, level: &mut Level) -> (r: Result<TakeItemsResponse, ErrorWrapper>)
    requires
        old(level).map matches Some(m) ==> m.wf(),
        old(level).player_inventory is Some && data.to_take@.len() > 0 && data.position is Some ==> old(level).map is Some,
    ensures
        match old(level).player_inventory {
            None => {
                &&& r matches Err(e) && e.wf() && e.error_type == ErrorType::INTERNAL
                    && e.internal_message.unwrap()@ == "[container_util::player_take_items] Failed to find the player in the level."@
                &&& final(level).player_inventory == old(level).player_inventory
                &&& final(level).map == old(level).map
            },
            Some(inv0) => {
                let plan = take_plan(inv0, data.source, data.to_take@);
                &&& final(level).player_inventory matches Some(inv1) && appended(inv0, inv1, plan.0)
                &&& data.to_take@.len() == 0 ==> final(level).map == old(level).map
                &&& data.to_take@.len() > 0 && data.position is None ==> {
                    &&& r matches Err(e) && e.wf() && e.error_type == ErrorType::INTERNAL
                        && e.internal_message.unwrap()@ == "[container_util::player_take_items] No map position to take items from!"@
                    &&& final(level).map == old(level).map
                }
                &&& data.to_take@.len() > 0 && data.position is Some ==> (final(level).map matches Some(m1)
                    && removed_at(old(level).map.unwrap(), m1, data.source, data.position.unwrap(), plan.0))
                &&& (data.to_take@.len() == 0 || data.position is Some) ==> (r matches Ok(resp)
                    && resp.container_id == data.source.id()
                    && resp.untaken@ == plan.1
                    && resp.message@ == take_message(plan.0.len(), plan.1.len(), data.to_take@.len()))
            },
        },
{
    let total_to_take = data.to_take.len();
    let source_container_id = data.source.get_self_item().get_id();
    let mut slot: Option<Container> = None;
    std::mem::swap(&mut slot, &mut level.player_inventory);
    let mut inventory = match slot {
        Some(inv) => inv,
        None => {
            proof {
                reveal_strlit("[container_util::player_take_items] Failed to find the player in the level.");
            }
            return Err(ErrorWrapper::new_internal(String::from_str("[container_util::player_take_items] Failed to find the player in the level.")));
        },
    };
    let ghost inv0 = inventory;
    let ghost items = data.to_take@;
    let mut taken: Vec<Container> = Vec::new();
    let mut removing: Vec<Container> = Vec::new();
    let mut untaken: Vec<Item> = Vec::new();
    let mut i: usize = 0;
    proof {
        assert(inv0.inside().take(inv0.inside().len() as int) =~= inv0.inside());
    }
    while i < data.to_take.len()
        invariant
            i <= items.len(),
            items == data.to_take@,
            taken@.len() == take_plan(inv0, data.source, items.take(i as int)).0.len(),
            removing@.len() == taken@.len(),
            forall|k: int| 0 <= k < taken@.len() ==> same_container(#[trigger] taken@[k], take_plan(inv0, data.source, items.take(i as int)).0[k]),
            forall|k: int| 0 <= k < removing@.len() ==> same_container(#[trigger] removing@[k], take_plan(inv0, data.source, items.take(i as int)).0[k]),
            untaken@ == take_plan(inv0, data.source, items.take(i as int)).1,
            appended(inv0, inventory, take_plan(inv0, data.source, items.take(i as int)).0),
        decreases items.len() - i,
    {
        let item = &data.to_take[i];
        let ghost plan0 = take_plan(inv0, data.source, items.take(i as int));
        proof {
            assert(items.take(i + 1).drop_last() =~= items.take(i as int));
            assert(items.take(i + 1).last() == items[i as int]);
        }
        let ghost inv_before = inventory;
        let ghost taken_before = taken@;
        if let Some(container_item) = data.source.find(item) {
            proof {
                // The inventory now weighs what it held plus what was taken.
                assert(inventory.inside() =~= inv0.inside() + inventory.inside().skip(inv0.inside().len() as int));
                lemma_concat_weight(inv0.inside(), inventory.inside().skip(inv0.inside().len() as int));
                assert forall|k: int| 0 <= k < plan0.0.len() implies same_container(
                    #[trigger] inventory.inside().skip(inv0.inside().len() as int)[k], plan0.0[k]) by {
                    assert(inventory.inside().skip(inv0.inside().len() as int)[k] == inventory.inside()[inv0.inside().len() + k]);
                }
                lemma_same_contents_weight(inventory.inside().skip(inv0.inside().len() as int), plan0.0);
            }
            if inventory.can_fit_container_item(container_item) {
                let added = copy_container(container_item);
                proof {
                    lemma_same_weight(added, *container_item);
                }
                match inventory.add(added) {
                    Ok(()) => {
                        taken.push(copy_container(container_item));
                        removing.push(copy_container(container_item));
                    },
                    Err(_e) => {},
                }
            } else {
                untaken.push(item.clone());
            }
        } else {
            untaken.push(item.clone());
        }
        proof {
            let plan1 = take_plan(inv0, data.source, items.take(i + 1));
            assert forall|k: int| 0 <= k < taken@.len() implies same_container(#[trigger] taken@[k], plan1.0[k]) by {
                if k < taken_before.len() {
                    assert(taken@[k] == taken_before[k]);
                }
            }
            assert forall|k: int| 0 <= k < plan1.0.len() implies same_container(
                #[trigger] inventory.inside()[inv0.inside().len() + k], plan1.0[k]) by {
                if k < plan0.0.len() {
                    assert(inventory.inside()[inv0.inside().len() + k] == inv_before.inside()[inv0.inside().len() + k]);
                    assert(plan1.0[k] == plan0.0[k]);
                }
            }
            assert(inventory.inside().take(inv0.inside().len() as int) =~= inv0.inside()) by {
                assert(inventory.inside().take(inv0.inside().len() as int) =~= inv_before.inside().take(inv0.inside().len() as int));
            }
        }
        i += 1;
    }
    proof {
        assert(items.take(items.len() as int) =~= items);
        lemma_take_plan_len(inv0, data.source, items);
    }
    let ghost plan = take_plan(inv0, data.source, items);
    level.player_inventory = Some(inventory);

    if taken.len() > 0 || untaken.len() > 0 {
        match data.position {
            Some(pos) => {
                proof {
                    assert forall|k: int| 0 <= k < removing@.len() implies (#[trigger] removing@[k]).id() == plan.0[k].id() by {
                        lemma_same_container(removing@[k], plan.0[k]);
                    }
                    lemma_without_same_ids(find_container_spec(level.map.unwrap(), data.source, pos).unwrap_or(data.source).inside(),
                        removing@, plan.0);
                }
                let ghost m0 = level.map.unwrap();
                match &mut level.map {
                    Some(map) => {
                        let found = map.find_container_mut(&data.source, pos);
                        match found {
                            Some(source_container) => {
                                source_container.remove_matching_items(removing);
                            },
                            None => {},
                        }
                    },
                    None => {},
                }
                proof {
                    let m1 = level.map.unwrap();
                    if let Some(f) = find_container_spec(m0, data.source, pos) {
                        let pc1 = m1.containers.get_spec(pos).unwrap();
                        assert(exists|sub: Container| {
                            &&& #[trigger] changed_found(m0.containers.get_spec(pos).unwrap(), pc1, data.source.id(), sub)
                            &&& m1.containers.get_spec(pos) is Some
                            &&& sub.self_item() == f.self_item()
                            &&& sub.kind() == f.kind()
                            &&& sub.limit() == f.limit()
                            &&& sub.inside() == without_ids(f.inside(), plan.0)
                        });
                    }
                }
            },
            None => {
                proof {
                    reveal_strlit("[container_util::player_take_items] No map position to take items from!");
                }
                return Err(ErrorWrapper::new_internal(String::from_str("[container_util::player_take_items] No map position to take items from!")));
            },
        }
    }

    let taken_count = taken.len();
    let untaken_count = untaken.len();
    proof {
        reveal_strlit("You cannot take anything");
        reveal_strlit("You take all ");
        reveal_strlit(" items");
        reveal_strlit("You took ");
        reveal_strlit(" of the ");
        reveal_strlit(" items, but could not carry any more");
    }
    let message = if taken_count == 0 {
        String::from_str("You cannot take anything")
    } else if untaken_count == 0 && taken_count == total_to_take {
        let mut m = String::from_str("You take all ");
        push_decimal(&mut m, total_to_take as u64);
        m.append(" items");
        m
    } else {
        let mut m = String::from_str("You took ");
        push_decimal(&mut m, taken_count as u64);
        m.append(" of the ");
        push_decimal(&mut m, total_to_take as u64);
        m.append(" items, but could not carry any more");
        m
    };
    Ok(TakeItemsResponse { container_id: source_container_id, untaken, message })
}


/// What copying `cs` into `target` copies and leaves, in order: a container
/// is copied when it fits beside what the target holds and what was copied
/// before.
pub open spec fn copy_plan(target: Container, cs: Seq<Container>) -> (Seq<Container>, Seq<Container>)
    decreases cs.len(),
{
    if cs.len() == 0 {
        (Seq::empty(), Seq::empty())
    } else {
        let (copied, left) = copy_plan(target, cs.drop_last());
        let c = cs.last();
        if contents_weight(target.inside()) + contents_weight(copied) + weight_of(c) <= target.limit() * 1000 {
            (copied.push(c), left)
        } else {
            (copied, left.push(c))
        }
    }
}

/// Whether two lists of containers are, one for one, the same.
pub open spec fn same_list(xs: Seq<Container>, ys: Seq<Container>) -> bool {
    &&& xs.len() == ys.len()
    &&& forall|i: int| 0 <= i < xs.len() ==> same_container(#[trigger] xs[i], ys[i])
}

/// Copying lists that are the same copies and leaves the same.
proof fn lemma_copy_plan_same(target: Container, xs: Seq<Container>, ys: Seq<Container>)
    requires
        same_list(xs, ys),
    ensures
        same_list(copy_plan(target, xs).0, copy_plan(target, ys).0),
        same_list(copy_plan(target, xs).1, copy_plan(target, ys).1),
    decreases xs.len(),
{
    if xs.len() > 0 {
        assert(same_list(xs.drop_last(), ys.drop_last())) by {
            assert forall|i: int| 0 <= i < xs.drop_last().len() implies same_container(#[trigger] xs.drop_last()[i], ys.drop_last()[i]) by {
                assert(same_container(xs[i], ys[i]));
            }
        }
        lemma_copy_plan_same(target, xs.drop_last(), ys.drop_last());
        let px = copy_plan(target, xs.drop_last());
        let py = copy_plan(target, ys.drop_last());
        lemma_same_contents_weight(px.0, py.0);
        assert(same_container(xs.last(), ys.last()));
        lemma_same_weight(xs.last(), ys.last());
        let qx = copy_plan(target, xs);
        let qy = copy_plan(target, ys);
        assert forall|i: int| 0 <= i < qx.0.len() implies same_container(#[trigger] qx.0[i], qy.0[i]) by {
            if i < px.0.len() {
                assert(qx.0[i] == px.0[i] && qy.0[i] == py.0[i]);
            }
        }
        assert forall|i: int| 0 <= i < qx.1.len() implies same_container(#[trigger] qx.1[i], qy.1[i]) by {
            if i < px.1.len() {
                assert(qx.1[i] == px.1[i] && qy.1[i] == py.1[i]);
            }
        }
    }
}

/// What copying containers into a target gave: the copies made, the items of
/// those that did not fit, and a copy of the target afterwards.
#[derive(Debug)]
pub struct CopyResult {
    pub copied: Vec<Container>,
    pub uncopied: Vec<Item>,
    pub updated_target: Option<Container>,
}

/// The items the containers stand for, in order.
pub open spec fn items_of(cs: Seq<Container>) -> Seq<Item> {
    cs.map_values(|c: Container| c.self_item())
}

/// Copies each of `to_copy` into `target` when it fits (see `copy_plan`), in
/// order; the copies made, the items of the rest, and a copy of the target
/// come back.
pub fn copy_container_items(to_copy: Vec<Container>, target: &mut Container) -> (r: CopyResult)
    ensures
        appended(*old(target), *final(target), copy_plan(*old(target), to_copy@).0),
        same_list(r.copied@, copy_plan(*old(target), to_copy@).0),
        r.uncopied@ == items_of(copy_plan(*old(target), to_copy@).1),
        r.updated_target matches Some(t) && same_container(t, *final(target)),
{
    let ghost t0 = *target;
    let ghost cs = to_copy@;
    let mut copied: Vec<Container> = Vec::new();
    let mut uncopied: Vec<Item> = Vec::new();
    let mut i: usize = 0;
    proof {
        assert(t0.inside().take(t0.inside().len() as int) =~= t0.inside());
    }
    while i < to_copy.len()
        invariant
            i <= cs.len(),
            cs == to_copy@,
            same_list(copied@, copy_plan(t0, cs.take(i as int)).0),
            uncopied@ == items_of(copy_plan(t0, cs.take(i as int)).1),
            appended(t0, *target, copy_plan(t0, cs.take(i as int)).0),
        decreases cs.len() - i,
    {
        let container_item = &to_copy[i];
        let ghost plan0 = copy_plan(t0, cs.take(i as int));
        let ghost before = *target;
        proof {
            assert(cs.take(i + 1).drop_last() =~= cs.take(i as int));
            assert(cs.take(i + 1).last() == cs[i as int]);
            assert(target.inside() =~= t0.inside() + target.inside().skip(t0.inside().len() as int));
            lemma_concat_weight(t0.inside(), target.inside().skip(t0.inside().len() as int));
            assert forall|k: int| 0 <= k < plan0.0.len() implies same_container(
                #[trigger] target.inside().skip(t0.inside().len() as int)[k], plan0.0[k]) by {
                assert(target.inside().skip(t0.inside().len() as int)[k] == target.inside()[t0.inside().len() + k]);
            }
            lemma_same_contents_weight(target.inside().skip(t0.inside().len() as int), plan0.0);
        }
        if target.can_fit_container_item(container_item) {
            let add_clone = copy_container(container_item);
            proof {
                lemma_same_weight(add_clone, *container_item);
            }
            match target.add(add_clone) {
                Ok(()) => {
                    copied.push(copy_container(container_item));
                },
                Err(_e) => {
                    uncopied.push(container_item.get_self_item().clone());
                },
            }
        } else {
            uncopied.push(container_item.get_self_item().clone());
        }
        proof {
            let plan1 = copy_plan(t0, cs.take(i + 1));
            assert forall|k: int| 0 <= k < plan1.0.len() implies same_container(
                #[trigger] target.inside()[t0.inside().len() + k], plan1.0[k]) by {
                if k < plan0.0.len() {
                    assert(target.inside()[t0.inside().len() + k] == before.inside()[t0.inside().len() + k]);
                    assert(plan1.0[k] == plan0.0[k]);
                }
            }
            assert(target.inside().take(t0.inside().len() as int) =~= t0.inside()) by {
                assert(target.inside().take(t0.inside().len() as int) =~= before.inside().take(t0.inside().len() as int));
            }
            assert forall|k: int| 0 <= k < copied@.len() implies same_container(#[trigger] copied@[k], plan1.0[k]) by {
                if k < plan0.0.len() {
                    assert(plan1.0[k] == plan0.0[k]);
                }
            }
            assert(uncopied@ =~= items_of(plan1.1));
        }
        i += 1;
    }
    proof {
        assert(cs.take(cs.len() as int) =~= cs);
    }
    let updated = copy_container(target);
    CopyResult { copied, uncopied, updated_target: Some(updated) }
}


/// The container for `id` that a move reaches directly in the level: on the
/// map at the position `on_map` gives (the one lying there, or the first one
/// inside it), else in the player's inventory (the inventory itself, or the
/// first container directly inside it).
pub open spec fn reached(level: Level, on_map: Option<Position>, id: u128) -> Option<Container> {
    match on_map {
        Some(pos) => match level.map {
            Some(m) => match m.containers.get_spec(pos) {
                Some(c) => if c.id() == id { Some(c) } else { find_within(c, id) },
                None => None,
            },
            None => None,
        },
        None => match level.player_inventory {
            Some(inv) => if inv.id() == id {
                Some(inv)
            } else if has_id(inv.inside(), id) {
                Some(inv.inside()[first_id_index(inv.inside(), id)])
            } else {
                None
            },
            None => None,
        },
    }
}

/// Whether `l1` is `l0` with the container `reached` finds for `id` changed
/// into `new`, and nothing else changed.
pub open spec fn reached_replaced(l0: Level, l1: Level, on_map: Option<Position>, id: u128, new: Container) -> bool {
    match on_map {
        Some(pos) => {
            &&& l1.player_inventory == l0.player_inventory
            &&& l0.map is Some
            &&& l1.map is Some
            &&& l1.map.unwrap().wf()
            &&& l1.map.unwrap().area == l0.map.unwrap().area
            &&& l1.map.unwrap().tiles == l0.map.unwrap().tiles
            &&& l1.map.unwrap().rooms == l0.map.unwrap().rooms
            &&& forall|q: Position| q != pos ==> #[trigger] l1.map.unwrap().containers.get_spec(q) == l0.map.unwrap().containers.get_spec(q)
            &&& l1.map.unwrap().containers.get_spec(pos) is Some
            &&& changed_found(l0.map.unwrap().containers.get_spec(pos).unwrap(), l1.map.unwrap().containers.get_spec(pos).unwrap(), id, new)
        },
        None => {
            &&& l1.map == l0.map
            &&& l0.player_inventory is Some
            &&& l1.player_inventory is Some
            &&& if l0.player_inventory.unwrap().id() == id {
                l1.player_inventory.unwrap() == new
            } else {
                &&& l1.player_inventory.unwrap().self_item() == l0.player_inventory.unwrap().self_item()
                &&& l1.player_inventory.unwrap().kind() == l0.player_inventory.unwrap().kind()
                &&& l1.player_inventory.unwrap().limit() == l0.player_inventory.unwrap().limit()
                &&& l1.player_inventory.unwrap().inside() == l0.player_inventory.unwrap().inside().update(
                    first_id_index(l0.player_inventory.unwrap().inside(), id), new)
            }
        },
    }
}

/// The container for `id` that a move searches for in the level to take
/// items out of: on the map at the position `on_map` gives (the one lying
/// there, or else the first found inside one of its children), else in the
/// player's inventory (the inventory itself, or the first one inside it).
pub open spec fn searched(level: Level, on_map: Option<Position>, id: u128) -> Option<Container> {
    match on_map {
        Some(pos) => match level.map {
            Some(m) => match m.containers.get_spec(pos) {
                Some(c) => if c.id() == id { Some(c) } else { child_search(c.inside(), id) },
                None => None,
            },
            None => None,
        },
        None => match level.player_inventory {
            Some(inv) => if inv.id() == id { Some(inv) } else { find_within(inv, id) },
            None => None,
        },
    }
}

/// Whether `l1` is `l0` with the container `searched` finds for `id` changed
/// into `new`, and nothing else changed.
pub open spec fn searched_replaced(l0: Level, l1: Level, on_map: Option<Position>, id: u128, new: Container) -> bool {
    match on_map {
        Some(pos) => {
            &&& l1.player_inventory == l0.player_inventory
            &&& l0.map is Some
            &&& l1.map is Some
            &&& l1.map.unwrap().wf()
            &&& l1.map.unwrap().area == l0.map.unwrap().area
            &&& l1.map.unwrap().tiles == l0.map.unwrap().tiles
            &&& l1.map.unwrap().rooms == l0.map.unwrap().rooms
            &&& forall|q: Position| q != pos ==> #[trigger] l1.map.unwrap().containers.get_spec(q) == l0.map.unwrap().containers.get_spec(q)
            &&& l0.map.unwrap().containers.get_spec(pos) is Some
            &&& if l0.map.unwrap().containers.get_spec(pos).unwrap().id() == id {
                l1.map.unwrap().containers.get_spec(pos) == Some(new)
            } else {
                &&& l1.map.unwrap().containers.get_spec(pos) is Some
                &&& l1.map.unwrap().containers.get_spec(pos).unwrap().self_item() == l0.map.unwrap().containers.get_spec(pos).unwrap().self_item()
                &&& l1.map.unwrap().containers.get_spec(pos).unwrap().kind() == l0.map.unwrap().containers.get_spec(pos).unwrap().kind()
                &&& l1.map.unwrap().containers.get_spec(pos).unwrap().limit() == l0.map.unwrap().containers.get_spec(pos).unwrap().limit()
                &&& child_replaced(l0.map.unwrap().containers.get_spec(pos).unwrap().inside(),
                    l1.map.unwrap().containers.get_spec(pos).unwrap().inside(), id, new)
            }
        },
        None => {
            &&& l1.map == l0.map
            &&& l0.player_inventory is Some
            &&& l1.player_inventory is Some
            &&& if l0.player_inventory.unwrap().id() == id {
                l1.player_inventory.unwrap() == new
            } else {
                replaced_within(l0.player_inventory.unwrap(), l1.player_inventory.unwrap(), id, new)
            }
        },
    }
}

/// The container `reached` finds, for changing it in place.
fn reach_mut<'a>(level: &'a mut Level, on_map: Option<Position>, container: &Container) -> (r: &'a mut Container)
    requires
        old(level).map matches Some(m) ==> m.wf(),
        reached(*old(level), on_map, container.id()) is Some,
    ensures
        *r == reached(*old(level), on_map, container.id()).unwrap(),
        reached_replaced(*old(level), *final(level), on_map, container.id(), *final(r)),
{
    match on_map {
        Some(pos) => {
            let map = level.map.as_mut().unwrap();
            map.find_container_mut(container, pos).unwrap()
        },
        None => {
            let inv = level.player_inventory.as_mut().unwrap();
            if inv.id_equals(container) {
                inv
            } else {
                proof {
                    lemma_first_id_index(inv.inside(), container.id());
                }
                let k = inv.item_position(container.get_self_item()).unwrap();
                let contents = inv.get_contents_mut();
                &mut contents[k]
            }
        },
    }
}

/// The container `searched` finds, for changing it in place.
fn search_mut<'a>(level: &'a mut Level, on_map: Option<Position>, container: &Container) -> (r: &'a mut Container)
    requires
        old(level).map matches Some(m) ==> m.wf(),
        searched(*old(level), on_map, container.id()) is Some,
    ensures
        *r == searched(*old(level), on_map, container.id()).unwrap(),
        searched_replaced(*old(level), *final(level), on_map, container.id(), *final(r)),
{
    match on_map {
        Some(pos) => {
            let map = level.map.as_mut().unwrap();
            find_container_mut(map, pos, container).unwrap()
        },
        None => {
            let inv = level.player_inventory.as_mut().unwrap();
            if inv.id_equals(container) {
                inv
            } else {
                inv.find_mut(container.get_self_item()).unwrap()
            }
        },
    }
}


/// Where a source lies: on the map at a position, or (`None`) in the
/// player's inventory.
pub open spec fn source_place(s: SourceContainerScope) -> Option<Position> {
    match s {
        SourceContainerScope::WorldContainer(w) => Some(w.position),
        SourceContainerScope::PlayerInventory(_) => None,
    }
}

/// Where a target container lies: on the map at a position, or (`None`) in
/// the player's inventory.
pub open spec fn target_place(t: TargetContainerScope) -> Option<Position> {
    match t {
        TargetContainerScope::WorldContainer(w) => Some(w.position),
        _ => None,
    }
}

/// What the source becomes once the containers `moved` are taken out of it.
pub open spec fn emptied(s0: Container, s1: Container, moved: Seq<Container>) -> bool {
    &&& s1.self_item() == s0.self_item()
    &&& s1.kind() == s0.kind()
    &&& s1.limit() == s0.limit()
    &&& s1.inside() == without_ids(s0.inside(), moved)
}

/// The containers a move into another container copies, and those it leaves.
pub open spec fn move_plan(request: MoveItemsRequestV2, level: Level) -> (Seq<Container>, Seq<Container>) {
    let t0 = reached(level, target_place(request.target), target_container(request.target).unwrap().id()).unwrap();
    copy_plan(t0, found_copies(source_container(request.source), request.to_move@))
}

/// What a move needs so as not to fail on the way: when it moves into
/// another container, the target is reached in the level, and, after the
/// target takes the copies, the source is found, and, after the source gives
/// them up, it is reached again; when it moves to the place of an item, the
/// place fits and the source is reached in the level.
pub open spec fn move_completes(request: MoveItemsRequestV2, level: Level) -> bool {
    let src = source_container(request.source);
    let spos = source_place(request.source);
    let tpos = target_place(request.target);
    let tgt = target_container(request.target).unwrap();
    level.map is Some ==> {
        &&& (target_container(request.target) is Some && src.id() != tgt.id()) ==> {
            &&& reached(level, tpos, tgt.id()) is Some
            &&& forall|l1: Level, t1: Container| #[trigger] reached_replaced(level, l1, tpos, tgt.id(), t1)
                && appended(reached(level, tpos, tgt.id()).unwrap(), t1, move_plan(request, level).0) ==> {
                &&& searched(l1, spos, src.id()) is Some
                &&& forall|l2: Level, s1: Container| #[trigger] searched_replaced(l1, l2, spos, src.id(), s1)
                    && emptied(searched(l1, spos, src.id()).unwrap(), s1, move_plan(request, level).0)
                    ==> (l2.map matches Some(m) ==> m.wf()) && reached(l2, spos, src.id()) is Some
            }
        }
        &&& position_move_fits(request)
        &&& targets_item_position(request.target) && has_id(src.inside(), target_item(request.target)@.id)
            ==> reached(level, spos, src.id()) is Some
    }
}

/// The answer's message for a move into another container.
pub open spec fn moved_count_message(moved: nat, unmoved: nat) -> Seq<char> {
    "Moved "@ + decimal(moved) + "/"@ + decimal(unmoved) + " items"@
}

/// What a move into another container does to the level `l0`, leaving `l3`,
/// and answers: the target (as `reached` finds it) takes, last and in order,
/// the copies that fit (`move_plan`); then the source (as `searched` finds
/// it) gives up the containers standing for them; then the source, reached
/// again, is set to a copy of itself. The answer carries copies of the
/// source and target afterwards, the items left and the message.
pub open spec fn moved_between(request: MoveItemsRequestV2, l0: Level, l3: Level, resp: MoveItemsResponseV2) -> bool {
    let src = source_container(request.source);
    let tgt = target_container(request.target).unwrap();
    let spos = source_place(request.source);
    let tpos = target_place(request.target);
    let plan = move_plan(request, l0);
    &&& exists|l1: Level, l2: Level, t1: Container, s1: Container, s3: Container| {
        &&& #[trigger] reached_replaced(l0, l1, tpos, tgt.id(), t1)
        &&& appended(reached(l0, tpos, tgt.id()).unwrap(), t1, plan.0)
        &&& searched(l1, spos, src.id()) is Some
        &&& #[trigger] searched_replaced(l1, l2, spos, src.id(), s1)
        &&& emptied(searched(l1, spos, src.id()).unwrap(), s1, plan.0)
        &&& reached(l2, spos, src.id()) is Some
        &&& #[trigger] reached_replaced(l2, l3, spos, src.id(), s3)
        &&& same_container(s3, s1)
        &&& same_container(source_container(resp.updated_scopes.source), s1)
        &&& same_container(target_container(resp.updated_scopes.target).unwrap(), t1)
    }
    &&& source_place(resp.updated_scopes.source) == spos
    &&& target_container(resp.updated_scopes.target) is Some
    &&& target_place(resp.updated_scopes.target) == tpos
    &&& (resp.updated_scopes.target is PlayerInventory) == (request.target is PlayerInventory)
    &&& resp.unmoved@ == items_of(plan.1)
    &&& resp.message@ == moved_count_message(plan.0.len(), plan.1.len())
    &&& resp.success
    &&& same_request(resp.request, request)
}

fn copy_items(items: &Vec<Item>) -> (r: Vec<Item>)
    ensures
        r@ == items@,
{
    let mut r: Vec<Item> = Vec::new();
    let mut i: usize = 0;
    while i < items.len()
        invariant
            i <= items@.len(),
            r@ == items@.take(i as int),
        decreases items@.len() - i,
    {
        r.push(items[i].clone());
        proof {
            assert(items@.take(i + 1) =~= items@.take(i as int).push(items@[i as int]));
        }
        i += 1;
    }
    proof {
        assert(items@.take(i as int) =~= items@);
    }
    r
}

/// Moves the requested items out of the source: into another container (the
/// copies that fit, see `moved_between`), or to the place of an item in the
/// source (see `move_items_to_source_position`), after which the source, as
/// the level holds it, is set to a copy of the rearranged one. Fails, leaving
/// the level as it is, when the level has no map, when the target is the
/// source, and when a move to the place of an item does not find it.
pub fn move_items(request: MoveItemsRequestV2, level: &mut Level) -> (r: Result<MoveItemsResponseV2, ErrorWrapper>)
    requires
        old(level).map matches Some(m) ==> m.wf(),
        move_completes(request, *old(level)),
    ensures
        ({
            let src = source_container(request.source);
            let spos = source_place(request.source);
            if old(level).map is None {
                &&& r matches Err(e) && e.wf() && e.error_type == ErrorType::INTERNAL
                    && e.internal_message.unwrap()@ == "Cannot move items. No map available."@
                &&& *final(level) == *old(level)
            } else if target_container(request.target) is Some {
                if src.id() == target_container(request.target).unwrap().id() {
                    &&& r matches Err(e) && e.wf() && e.error_type == ErrorType::INTERNAL
                        && e.internal_message.unwrap()@ == "Cannot move items. Source cannot be the target"@
                    &&& *final(level) == *old(level)
                } else {
                    r matches Ok(resp) && moved_between(request, *old(level), *final(level), resp)
                }
            } else if targets_item_position(request.target) && has_id(src.inside(), target_item(request.target)@.id) {
                &&& r matches Ok(resp)
                &&& position_move_answer(request, resp)
                &&& exists|s3: Container| #[trigger] reached_replaced(*old(level), *final(level), spos, src.id(), s3)
                    && same_container(s3, source_container(resp.updated_scopes.source))
            } else {
                &&& r matches Err(e) && e.wf() && e.error_type == ErrorType::INTERNAL
                    && e.internal_message.unwrap()@ == "Failed to move items to source position"@
                &&& *final(level) == *old(level)
            }
        }),
{
    if level.map.is_none() {
        proof {
            reveal_strlit("Cannot move items. No map available.");
        }
        return Err(ErrorWrapper::new_internal(String::from_str("Cannot move items. No map available.")));
    }
    let ghost l0 = *level;
    let ghost req = request;
    let spos = match &request.source {
        SourceContainerScope::WorldContainer(wc) => Some(wc.position),
        SourceContainerScope::PlayerInventory(_) => None,
    };
    let src_key = copy_container(request.source.get_container());
    proof {
        lemma_same_container(src_key, source_container(req.source));
    }
    let response;
    let ghost mut g_l1 = l0;
    let ghost mut g_l2 = l0;
    let ghost mut g_t1 = src_key;
    let ghost mut g_s1 = src_key;
    if request.target.is_targeting_another_container() {
        let request_result_copy = copy_request(&request);
        let MoveItemsRequestV2 { source, target, to_move } = request;
        let source_container_v = match source {
            SourceContainerScope::WorldContainer(wc) => wc.container,
            SourceContainerScope::PlayerInventory(pic) => pic.container,
        };
        let (tpos, target_key, to_world) = match &target {
            TargetContainerScope::WorldContainer(w) => (Some(w.position), copy_container(&w.container), true),
            TargetContainerScope::PlayerInventory(p) => (None, copy_container(&p.container), false),
            _ => {
                proof {
                    reveal_strlit("Unsupported operation");
                }
                return Err(ErrorWrapper::new_internal(String::from_str("Unsupported operation")));
            },
        };
        proof {
            lemma_same_container(target_key, target_container(req.target).unwrap());
        }
        if source_container_v.id_equals(&target_key) {
            proof {
                reveal_strlit("Cannot move items. Source cannot be the target");
            }
            return Err(ErrorWrapper::new_internal(String::from_str("Cannot move items. Source cannot be the target")));
        }
        let ghost found = found_copies(source_container_v, to_move@);
        let to_copy = find_copying_items(source_container_v, to_move);
        let ghost t0 = reached(l0, tpos, target_key.id()).unwrap();
        let live_target = reach_mut(level, tpos, &target_key);
        let copy_result = copy_container_items(to_copy, live_target);
        let live_updated_target = copy_container(live_target);
        let ghost t1 = *live_target;
        let ghost l1 = *level;
        proof {
            lemma_copy_plan_same(t0, to_copy@, found);
            let pa = copy_plan(t0, to_copy@);
            let pb = copy_plan(t0, found);
            assert forall|i: int| 0 <= i < pb.0.len() implies same_container(#[trigger] t1.inside()[t0.inside().len() + i], pb.0[i]) by {
                lemma_same_container_trans(t1.inside()[t0.inside().len() + i], pa.0[i], pb.0[i]);
            }
            assert(appended(t0, t1, pb.0));
            assert(reached_replaced(l0, l1, tpos, target_key.id(), t1));
            assert(searched(l1, spos, src_key.id()) is Some);
        }
        let ghost s0 = searched(l1, spos, src_key.id()).unwrap();
        let source_live = search_mut(level, spos, &src_key);
        let ghost plan = copy_plan(t0, found);
        proof {
            let pa = copy_plan(t0, to_copy@);
            assert forall|i: int| 0 <= i < copy_result.copied@.len() implies (#[trigger] copy_result.copied@[i]).id() == plan.0[i].id() by {
                lemma_same_container_trans(copy_result.copied@[i], pa.0[i], plan.0[i]);
                lemma_same_container(copy_result.copied@[i], plan.0[i]);
            }
            lemma_without_same_ids(s0.inside(), copy_result.copied@, plan.0);
        }
        let moved_count = copy_result.copied.len();
        source_live.remove_matching_items(copy_result.copied);
        let updated_source = copy_container(source_live);
        let ghost s1 = *source_live;
        let ghost l2 = *level;
        proof {
            assert(emptied(s0, s1, plan.0));
            assert(searched_replaced(l1, l2, spos, src_key.id(), s1));
            assert(reached(l2, spos, src_key.id()) is Some);
            g_l1 = l1;
            g_l2 = l2;
            g_t1 = t1;
            g_s1 = s1;
        }
        let unmoved_count = copy_result.uncopied.len();
        proof {
            reveal_strlit("Moved ");
            reveal_strlit("/");
            reveal_strlit(" items");
            let pa = copy_plan(t0, to_copy@);
            assert(copy_result.uncopied@ =~= items_of(plan.1)) by {
                assert forall|i: int| 0 <= i < pa.1.len() implies (#[trigger] pa.1[i]).self_item() == plan.1[i].self_item() by {
                    lemma_same_container(pa.1[i], plan.1[i]);
                }
            }
        }
        let mut message = String::from_str("Moved ");
        push_decimal(&mut message, moved_count as u64);
        message.append("/");
        push_decimal(&mut message, unmoved_count as u64);
        message.append(" items");
        let updated_source_scope = match spos {
            Some(p) => SourceContainerScope::WorldContainer(WorldContainer { container: updated_source, position: p }),
            None => SourceContainerScope::PlayerInventory(PlayerInventoryContainer { container: updated_source }),
        };
        let updated_target_scope = if to_world {
            TargetContainerScope::WorldContainer(WorldContainer { container: live_updated_target, position: tpos.unwrap() })
        } else {
            TargetContainerScope::PlayerInventory(PlayerInventoryContainer { container: live_updated_target })
        };
        response = MoveItemsResponseV2 {
            request: request_result_copy,
            success: true,
            updated_scopes: UpdatedScopes { source: updated_source_scope, target: updated_target_scope },
            unmoved: copy_result.uncopied,
            message,
        };
    } else {
        match move_items_to_source_position(request) {
            None => {
                proof {
                    reveal_strlit("Failed to move items to source position");
                }
                return Err(ErrorWrapper::new_internal(String::from_str("Failed to move items to source position")));
            },
            Some(rs) => {
                response = rs;
            },
        }
    }
    // Now the target and an updated copy of the source are made, the source
    // in the level is set to that copy.
    let ghost l2b = *level;
    let live_source = reach_mut(level, spos, &src_key);
    let replacement = copy_container(response.updated_scopes.source.get_container());
    let ghost s3 = replacement;
    *live_source = replacement;
    proof {
        assert(reached_replaced(l2b, *level, spos, src_key.id(), s3));
        if target_container(req.target) is Some {
            lemma_same_container_trans(s3, source_container(response.updated_scopes.source), g_s1);
            assert(reached_replaced(l0, g_l1, target_place(req.target), target_container(req.target).unwrap().id(), g_t1));
            assert(searched_replaced(g_l1, g_l2, spos, src_key.id(), g_s1));
            assert(exists|l1: Level, l2: Level, t1: Container, s1: Container, s3: Container| {
                &&& #[trigger] reached_replaced(l0, l1, target_place(req.target), target_container(req.target).unwrap().id(), t1)
                &&& appended(reached(l0, target_place(req.target), target_container(req.target).unwrap().id()).unwrap(), t1, move_plan(req, l0).0)
                &&& searched(l1, spos, src_key.id()) is Some
                &&& #[trigger] searched_replaced(l1, l2, spos, src_key.id(), s1)
                &&& emptied(searched(l1, spos, src_key.id()).unwrap(), s1, move_plan(req, l0).0)
                &&& reached(l2, spos, src_key.id()) is Some
                &&& #[trigger] reached_replaced(l2, *level, spos, src_key.id(), s3)
                &&& same_container(s3, s1)
                &&& same_container(source_container(response.updated_scopes.source), s1)
                &&& same_container(target_container(response.updated_scopes.target).unwrap(), t1)
            });
        }
    }
    Ok(response)
}


/// Whether `inv1` is the inventory `inv0` after a drop looked in it for
/// `item`: when it holds a container for the item, that container's item is
/// unequipped in place and `found` is the container so changed; otherwise
/// nothing changes and nothing is found.
pub open spec fn drop_step(inv0: Container, inv1: Container, item: Item, found: Option<Container>) -> bool {
    match find_within(inv0, item@.id) {
        Some(c) => {
            &&& found is Some
            &&& found.unwrap().self_item()@ == (ItemView { equipment_slot: None, ..c.self_item()@ })
            &&& found.unwrap().kind() == c.kind()
            &&& found.unwrap().limit() == c.limit()
            &&& found.unwrap().inside() == c.inside()
            &&& replaced_within(inv0, inv1, item@.id, found.unwrap())
        },
        None => found is None && inv1 == inv0,
    }
}

/// Whether `invs` are the inventories, from `inv0` on, as a drop looks in
/// turn for each of `items`, finding `founds`.
pub open spec fn drop_chain(inv0: Container, invs: Seq<Container>, founds: Seq<Option<Container>>, items: Seq<Item>) -> bool {
    &&& invs.len() == items.len() + 1
    &&& founds.len() == items.len()
    &&& invs[0] == inv0
    &&& forall|k: int| 0 <= k < items.len() ==> drop_step(#[trigger] invs[k], invs[k + 1], items[k], founds[k])
}

/// What a drop places in the `target` container and which items it drops:
/// in order, a found container is placed when there is a target and it fits
/// beside what the target holds and what was placed before.
pub open spec fn drop_plan(target: Option<Container>, founds: Seq<Option<Container>>) -> (Seq<Container>, Seq<bool>)
    decreases founds.len(),
{
    if founds.len() == 0 {
        (Seq::empty(), Seq::empty())
    } else {
        let (placed, flags) = drop_plan(target, founds.drop_last());
        if target is Some && founds.last() is Some && contents_weight(target.unwrap().inside()) + contents_weight(placed)
            + weight_of(founds.last().unwrap()) <= target.unwrap().limit() * 1000 {
            (placed.push(founds.last().unwrap()), flags.push(true))
        } else {
            (placed, flags.push(false))
        }
    }
}

/// What a drop finds for each item it looks up stands for an unequipped item.
proof fn lemma_drop_finds_unequipped(inv0: Container, invs: Seq<Container>, founds: Seq<Option<Container>>, items: Seq<Item>)
    requires
        drop_chain(inv0, invs, founds, items),
    ensures
        forall|k: int| 0 <= k < founds.len() && (#[trigger] founds[k]) is Some
            ==> founds[k].unwrap().self_item()@.equipment_slot is None,
{
    assert forall|k: int| 0 <= k < founds.len() && (#[trigger] founds[k]) is Some
        implies founds[k].unwrap().self_item()@.equipment_slot is None by {
        assert(drop_step(invs[k], invs[k + 1], items[k], founds[k]));
    }
}

proof fn lemma_plan_places_found(target: Option<Container>, founds: Seq<Option<Container>>)
    requires
        forall|k: int| 0 <= k < founds.len() && (#[trigger] founds[k]) is Some
            ==> founds[k].unwrap().self_item()@.equipment_slot is None,
    ensures
        forall|i: int| 0 <= i < drop_plan(target, founds).0.len()
            ==> (#[trigger] drop_plan(target, founds).0[i]).self_item()@.equipment_slot is None,
    decreases founds.len(),
{
    if founds.len() > 0 {
        let rest = founds.drop_last();
        assert forall|k: int| 0 <= k < rest.len() && (#[trigger] rest[k]) is Some
            implies rest[k].unwrap().self_item()@.equipment_slot is None by {
            assert(rest[k] == founds[k]);
        }
        lemma_plan_places_found(target, rest);
        let last = founds[founds.len() - 1];
        assert(last is Some ==> last.unwrap().self_item()@.equipment_slot is None);
    }
}

/// A drop never loads the target past its weight limit: when it places
/// anything, what the target held and what was placed together weigh at most
/// the limit; without a target nothing is placed.
pub proof fn lemma_drop_respects_weight_limit(target: Option<Container>, founds: Seq<Option<Container>>)
    ensures
        target is None ==> drop_plan(target, founds).0.len() == 0,
        target is Some && drop_plan(target, founds).0.len() > 0 ==> contents_weight(target.unwrap().inside())
            + contents_weight(drop_plan(target, founds).0) <= target.unwrap().limit() * 1000,
        drop_plan(target, founds).0.len() <= founds.len(),
    decreases founds.len(),
{
    if founds.len() > 0 {
        lemma_drop_respects_weight_limit(target, founds.drop_last());
        lemma_contents_weight(drop_plan(target, founds.drop_last()).0);
    }
}

/// Every container a drop places in the target stands for an item that is not
/// marked as worn: a dropped item is always unequipped, whatever it was in the
/// inventory.
pub proof fn lemma_dropped_items_unequipped(
    inv0: Container,
    invs: Seq<Container>,
    founds: Seq<Option<Container>>,
    items: Seq<Item>,
    target: Option<Container>,
)
    requires
        drop_chain(inv0, invs, founds, items),
    ensures
        forall|i: int| 0 <= i < drop_plan(target, founds).0.len()
            ==> (#[trigger] drop_plan(target, founds).0[i]).self_item()@.equipment_slot is None,
{
    lemma_drop_finds_unequipped(inv0, invs, founds, items);
    lemma_plan_places_found(target, founds);
}

/// The items without the first one standing for the same item as `id`.
pub open spec fn remove_first_with_id(s: Seq<Item>, id: u128) -> Seq<Item>
    decreases s.len(),
{
    if s.len() == 0 {
        s
    } else if s[0]@.id == id {
        s.drop_first()
    } else {
        seq![s[0]] + remove_first_with_id(s.drop_first(), id)
    }
}

/// The items still held after a drop: for each item dropped, in turn, the
/// first one standing for it is taken out.
pub open spec fn undropped_after(items: Seq<Item>, flags: Seq<bool>) -> Seq<Item>
    decreases flags.len(),
{
    if flags.len() == 0 {
        items
    } else {
        let rest = undropped_after(items, flags.drop_last());
        if flags.last() { remove_first_with_id(rest, items[flags.len() - 1]@.id) } else { rest }
    }
}

/// The message of a drop of `total` items, `dropped` of which were dropped.
pub open spec fn drop_message(dropped: nat, total: nat) -> Seq<char> {
    if dropped == 0 {
        "You cannot drop anything"@
    } else {
        "You dropped "@ + decimal(dropped) + " of the "@ + decimal(total) + " items, but could not drop any more"@
    }
}

proof fn lemma_remove_first_with_id(s: Seq<Item>, id: u128, k: int)
    requires
        0 <= k < s.len(),
        s[k]@.id == id,
        forall|j: int| 0 <= j < k ==> s[j]@.id != id,
    ensures
        remove_first_with_id(s, id) == s.remove(k),
    decreases s.len(),
{
    if k == 0 {
        assert(s.drop_first() =~= s.remove(0));
    } else {
        lemma_remove_first_with_id(s.drop_first(), id, k - 1);
        assert(seq![s[0]] + s.drop_first().remove(k - 1) =~= s.remove(k));
    }
}

proof fn lemma_remove_first_with_id_absent(s: Seq<Item>, id: u128)
    requires
        forall|j: int| 0 <= j < s.len() ==> s[j]@.id != id,
    ensures
        remove_first_with_id(s, id) == s,
    decreases s.len(),
{
    if s.len() > 0 {
        lemma_remove_first_with_id_absent(s.drop_first(), id);
        assert(seq![s[0]] + s.drop_first() =~= s);
    }
}

/// The index of the first item standing for the same item as `item`.
fn first_item_index(items: &Vec<Item>, item: &Item) -> (r: Option<usize>)
    ensures
        match r {
            Some(k) => k < items@.len() && items@[k as int]@.id == item@.id
                && forall|j: int| 0 <= j < k ==> items@[j]@.id != item@.id,
            None => forall|j: int| 0 <= j < items@.len() ==> items@[j]@.id != item@.id,
        },
{
    let mut i: usize = 0;
    while i < items.len()
        invariant
            i <= items@.len(),
            forall|j: int| 0 <= j < i ==> items@[j]@.id != item@.id,
        decreases items@.len() - i,
    {
        if items[i].id_equals(item) {
            return Some(i);
        }
        i += 1;
    }
    None
}

proof fn lemma_no_found_no_placed(target: Option<Container>, founds: Seq<Option<Container>>)
    requires
        forall|k: int| 0 <= k < founds.len() ==> (#[trigger] founds[k]) is None,
    ensures
        drop_plan(target, founds).0.len() == 0,
        forall|items: Seq<Item>| #[trigger] undropped_after(items, drop_plan(target, founds).1) == items,
    decreases founds.len(),
{
    if founds.len() > 0 {
        lemma_no_found_no_placed(target, founds.drop_last());
        assert(founds.last() is None);
        let flags = drop_plan(target, founds).1;
        assert(flags.drop_last() =~= drop_plan(target, founds.drop_last()).1);
        assert forall|items: Seq<Item>| #[trigger] undropped_after(items, drop_plan(target, founds).1) == items by {
            assert(undropped_after(items, drop_plan(target, founds.drop_last()).1) == items);
        }
    }
}

/// Whether the map `m1` holds the same containers as `m0` but at `pos`, with
/// the same area, tiles and rooms.
pub open spec fn same_but_at(m0: GameMap, m1: GameMap, pos: Position) -> bool {
    &&& m1.wf()
    &&& m1.area == m0.area
    &&& m1.tiles == m0.tiles
    &&& m1.rooms == m0.rooms
    &&& forall|q: Position| q != pos ==> #[trigger] m1.containers.get_spec(q) == m0.containers.get_spec(q)
}

/// Drops the requested items from the player's inventory into the container
/// lying on the map at `data.position`: for each item in turn, the container
/// the inventory holds for it (at any depth) has its item unequipped in
/// place, and a copy goes into the container on the map when it fits (see
/// `drop_plan`). Then the inventory gives up the containers standing for
/// the dropped ones. The answer carries the source's identifier, the items
/// not dropped and a message.
#[verifier::rlimit(40)]
pub fn player_drop_items(data: DropItemsRequest, level: &mut Level) -> (r: Result<DropItemsResponse, ErrorWrapper>)
    requires
        data.position is Some,
        old(level).map matches Some(m) ==> m.wf(),
        (old(level).player_inventory is Some && exists|k: int| 0 <= k < data.to_drop@.len()
            && find_within(old(level).player_inventory.unwrap(), (#[trigger] data.to_drop@[k])@.id) is Some)
            ==> old(level).map is Some,
    ensures
        r matches Ok(resp) && resp.container_id == data.source.id() && ({
            let items = data.to_drop@;
            let pos = data.position.unwrap();
            let target = match old(level).map {
                Some(m) => m.containers.get_spec(pos),
                None => None,
            };
            match old(level).player_inventory {
                None => {
                    &&& resp.undropped@ == items
                    &&& resp.message@ == drop_message(0, items.len())
                    &&& final(level).player_inventory is None
                    &&& final(level).map == old(level).map
                },
                Some(inv0) => exists|invs: Seq<Container>, founds: Seq<Option<Container>>| {
                    &&& #[trigger] drop_chain(inv0, invs, founds, items)
                    &&& resp.undropped@ == undropped_after(items, drop_plan(target, founds).1)
                    &&& resp.message@ == drop_message(drop_plan(target, founds).0.len(), items.len())
                    &&& final(level).player_inventory is Some
                    &&& if drop_plan(target, founds).0.len() > 0 {
                        emptied(invs.last(), final(level).player_inventory.unwrap(), drop_plan(target, founds).0)
                    } else {
                        final(level).player_inventory.unwrap() == invs.last()
                    }
                    &&& match old(level).map {
                        Some(m0) => {
                            &&& final(level).map is Some
                            &&& same_but_at(m0, final(level).map.unwrap(), pos)
                            &&& match target {
                                Some(t0) => final(level).map.unwrap().containers.get_spec(pos) is Some
                                    && appended(t0, final(level).map.unwrap().containers.get_spec(pos).unwrap(), drop_plan(target, founds).0),
                                None => final(level).map.unwrap().containers.get_spec(pos) is None,
                            }
                        },
                        None => final(level).map is None,
                    }
                },
            }
        }),
        old(level).map is Some && old(level).map.unwrap().containers.get_spec(data.position.unwrap()) is Some ==> {
            &&& final(level).map is Some
            &&& final(level).map.unwrap().containers.get_spec(data.position.unwrap()) is Some
            &&& forall|i: int| old(level).map.unwrap().containers.get_spec(data.position.unwrap()).unwrap().inside().len() <= i
                < final(level).map.unwrap().containers.get_spec(data.position.unwrap()).unwrap().inside().len()
                ==> (#[trigger] final(level).map.unwrap().containers.get_spec(data.position.unwrap()).unwrap().inside()[i])
                    .self_item()@.equipment_slot is None
        },
{
    let to_drop = data.to_drop;
    let total_to_drop = to_drop.len();
    let source_container_id = data.source.get_self_item().get_id();
    let target_position = data.position.unwrap();
    let ghost items = to_drop@;
    let ghost target: Option<Container> = if level.map is Some {
        level.map.unwrap().containers.get_spec(target_position)
    } else {
        None
    };
    let ghost l0 = *level;

    let mut undropped = copy_items(&to_drop);
    let mut dropped: Vec<Container> = Vec::new();
    let ghost mut invs: Seq<Container> = if level.player_inventory is Some {
        seq![level.player_inventory.unwrap()]
    } else {
        Seq::empty()
    };
    let ghost mut founds: Seq<Option<Container>> = Seq::empty();
    proof {
        if let Some(t0) = target {
            assert(t0.inside().take(t0.inside().len() as int) =~= t0.inside());
        }
    }
    let mut i: usize = 0;
    while i < to_drop.len()
        invariant
            i <= items.len(),
            items == to_drop@,
            target_position == data.position.unwrap(),
            target == match l0.map {
                Some(m) => m.containers.get_spec(target_position),
                None => None::<Container>,
            },
            (l0.player_inventory is Some && exists|k: int| 0 <= k < items.len()
                && find_within(l0.player_inventory.unwrap(), (#[trigger] items[k])@.id) is Some) ==> l0.map is Some,
            l0.player_inventory is None ==> level.map == l0.map,
            match l0.player_inventory {
                None => {
                    &&& level.player_inventory is None
                    &&& founds == Seq::new(i as nat, |k: int| None::<Container>)
                },
                Some(inv0) => {
                    &&& drop_chain(inv0, invs, founds, items.take(i as int))
                    &&& level.player_inventory == Some(invs.last())
                    &&& forall|id2: u128| (#[trigger] find_within(invs.last(), id2) is Some) == (find_within(inv0, id2) is Some)
                },
            },
            same_list(dropped@, drop_plan(target, founds).0),
            undropped@ == undropped_after(items, drop_plan(target, founds).1),
            drop_plan(target, founds).1.len() == i,
            match l0.map {
                Some(m0) => {
                    &&& level.map is Some
                    &&& same_but_at(m0, level.map.unwrap(), target_position)
                    &&& match target {
                        Some(t0) => level.map.unwrap().containers.get_spec(target_position) is Some
                            && appended(t0, level.map.unwrap().containers.get_spec(target_position).unwrap(), drop_plan(target, founds).0),
                        None => level.map.unwrap().containers.get_spec(target_position) is None,
                    }
                },
                None => level.map is None,
            },
        decreases items.len() - i,
    {
        let item = &to_drop[i];
        let ghost plan0 = drop_plan(target, founds);
        let ghost founds0 = founds;
        let ghost invs0 = invs;
        let mut dropping_container_item: Option<Container> = None;
        let ghost mut did_drop = false;
        let ghost und_before = undropped@;

        // Modify the player inventory first
        match level.player_inventory.as_mut() {
            Some(player_inventory) => {
                let ghost inv_k = *player_inventory;
                match player_inventory.find_mut(item) {
                    Some(container_item) => {
                        let ghost c = *container_item;
                        let self_item = container_item.get_self_item_mut();
                        self_item.unequip();
                        let ghost f = *container_item;
                        dropping_container_item = Some(copy_container(container_item));
                        proof {
                            founds = founds0.push(Some(f));
                        }
                    },
                    None => {
                        proof {
                            founds = founds0.push(None);
                        }
                    },
                }
            },
            None => {
                proof {
                    founds = founds0.push(None);
                }
            },
        }
        proof {
            assert(founds.drop_last() =~= founds0);
            if let Some(inv0) = l0.player_inventory {
                let inv1 = level.player_inventory.unwrap();
                invs = invs0.push(inv1);
                let t1 = items.take(i + 1);
                assert(t1.drop_last() =~= items.take(i as int));
                assert(drop_step(invs0.last(), inv1, items[i as int], founds.last()));
                assert forall|k: int| 0 <= k < t1.len() implies drop_step(#[trigger] invs[k], invs[k + 1], t1[k], founds[k]) by {
                    if k < i {
                        assert(invs[k] == invs0[k] && invs[k + 1] == invs0[k + 1] && founds[k] == founds0[k]);
                        assert(t1[k] == items.take(i as int)[k]);
                    }
                }
                assert(drop_chain(inv0, invs, founds, t1));
                if let Some(c) = find_within(invs0.last(), items[i as int]@.id) {
                    assert forall|id2: u128| (#[trigger] find_within(inv1, id2) is Some) == (find_within(inv0, id2) is Some) by {
                        lemma_replaced_keeps_finds(invs0.last(), inv1, items[i as int]@.id, founds.last().unwrap(), id2);
                        assert((find_within(invs0.last(), id2) is Some) == (find_within(inv0, id2) is Some));
                    }
                    assert(find_within(inv0, items[i as int]@.id) is Some);
                    assert(l0.map is Some);
                }
            } else {
                assert(founds =~= Seq::new((i + 1) as nat, |k: int| None::<Container>));
            }
        }

        // Secondly, add the player items to the target container
        if let Some(dropping_container) = dropping_container_item {
            let map = level.map.as_mut().unwrap();
            let ghost m_before = *map;
            match map.get_container_at_position_mut(target_position) {
                Some(target_container) => {
                    let ghost tb = *target_container;
                    proof {
                        let t0 = target.unwrap();
                        assert(tb.inside() =~= t0.inside() + tb.inside().skip(t0.inside().len() as int));
                        lemma_concat_weight(t0.inside(), tb.inside().skip(t0.inside().len() as int));
                        assert forall|k: int| 0 <= k < plan0.0.len() implies same_container(
                            #[trigger] tb.inside().skip(t0.inside().len() as int)[k], plan0.0[k]) by {
                            assert(tb.inside().skip(t0.inside().len() as int)[k] == tb.inside()[t0.inside().len() + k]);
                        }
                        lemma_same_contents_weight(tb.inside().skip(t0.inside().len() as int), plan0.0);
                        lemma_same_weight(dropping_container, founds.last().unwrap());
                    }
                    if target_container.can_fit_container_item(&dropping_container) {
                        let add_clone = copy_container(&dropping_container);
                        proof {
                            lemma_same_weight(add_clone, dropping_container);
                        }
                        match target_container.add(add_clone) {
                            Ok(()) => {
                                let found_pos = first_item_index(&undropped, item);
                                let ghost und0 = undropped@;
                                match found_pos {
                                    Some(p) => {
                                        proof {
                                            lemma_remove_first_with_id(und0, item@.id, p as int);
                                        }
                                        undropped.remove(p);
                                    },
                                    None => {
                                        proof {
                                            lemma_remove_first_with_id_absent(und0, item@.id);
                                        }
                                    },
                                }
                                dropped.push(dropping_container);
                                proof {
                                    did_drop = true;
                                }
                            },
                            Err(_e) => {},
                        }
                    }
                    proof {
                        let t0 = target.unwrap();
                        let plan1 = drop_plan(target, founds);
                        let ta = *target_container;
                        assert forall|k: int| 0 <= k < plan1.0.len() implies same_container(
                            #[trigger] ta.inside()[t0.inside().len() + k], plan1.0[k]) by {
                            if k < plan0.0.len() {
                                assert(ta.inside()[t0.inside().len() + k] == tb.inside()[t0.inside().len() + k]);
                                assert(plan1.0[k] == plan0.0[k]);
                            } else {
                                lemma_same_container_trans(ta.inside()[t0.inside().len() + k], dropping_container, plan1.0[k]);
                            }
                        }
                        assert(ta.inside().take(t0.inside().len() as int) =~= t0.inside()) by {
                            assert(ta.inside().take(t0.inside().len() as int) =~= tb.inside().take(t0.inside().len() as int));
                        }
                    }
                },
                None => {},
            }
        }
        proof {
            let plan1 = drop_plan(target, founds);
            assert(founds.drop_last() =~= founds0);
            assert forall|k: int| 0 <= k < dropped@.len() implies same_container(#[trigger] dropped@[k], plan1.0[k]) by {
                if k < plan0.0.len() {
                    assert(plan1.0[k] == plan0.0[k]);
                }
            }
            assert(items[(plan1.1.len() - 1) as int] == items[i as int]);
            assert(plan1.1.drop_last() =~= plan0.1);
            assert(plan1.1.last() == did_drop);
            if did_drop {
                assert(undropped@ == remove_first_with_id(und_before, items[i as int]@.id));
            } else {
                assert(undropped@ == und_before);
            }
        }
        i += 1;
    }
    proof {
        assert(items.take(items.len() as int) =~= items);
    }
    let ghost placed = drop_plan(target, founds).0;
    let dropped_count = dropped.len();

    // Finally, remove the dropped items from the player's inventory
    if dropped.len() > 0 {
        proof {
            assert forall|k: int| 0 <= k < dropped@.len() implies (#[trigger] dropped@[k]).id() == placed[k].id() by {
                lemma_same_container(dropped@[k], placed[k]);
            }
            lemma_without_same_ids(invs.last().inside(), dropped@, placed);
            assert(l0.player_inventory is Some) by {
                if l0.player_inventory is None {
                    assert(placed.len() == 0) by {
                        lemma_no_found_no_placed(target, founds);
                    }
                }
            }
        }
        let player_inventory = level.player_inventory.as_mut().unwrap();
        player_inventory.remove_matching_items(dropped);
    }

    proof {
        reveal_strlit("You cannot drop anything");
        reveal_strlit("You drop all ");
        reveal_strlit(" items");
        reveal_strlit("You dropped ");
        reveal_strlit(" of the ");
        reveal_strlit(" items, but could not drop any more");
    }
    let dropped_items_message = if dropped_count == 0 {
        String::from_str("You cannot drop anything")
    } else if dropped_count == 0 && dropped_count == total_to_drop {
        let mut m = String::from_str("You drop all ");
        push_decimal(&mut m, total_to_drop as u64);
        m.append(" items");
        m
    } else {
        let mut m = String::from_str("You dropped ");
        push_decimal(&mut m, dropped_count as u64);
        m.append(" of the ");
        push_decimal(&mut m, total_to_drop as u64);
        m.append(" items, but could not drop any more");
        m
    };
    proof {
        assert(dropped_count == placed.len());
        if let Some(inv0) = l0.player_inventory {
            assert(drop_chain(inv0, invs, founds, items));
            lemma_dropped_items_unequipped(inv0, invs, founds, items, target);
            if let Some(t0) = target {
                let t1 = level.map.unwrap().containers.get_spec(target_position).unwrap();
                assert forall|i: int| t0.inside().len() <= i < t1.inside().len()
                    implies (#[trigger] t1.inside()[i]).self_item()@.equipment_slot is None by {
                    let k = i - t0.inside().len();
                    assert(same_container(t1.inside()[t0.inside().len() + k], placed[k]));
                    lemma_same_container(t1.inside()[t0.inside().len() + k], placed[k]);
                }
            }
        } else {
            lemma_no_found_no_placed(target, founds);
            assert(undropped@ == undropped_after(items, drop_plan(target, founds).1));
        }
    }
    Ok(DropItemsResponse { container_id: source_container_id, undropped, message: dropped_items_message })
}

} // verus!
