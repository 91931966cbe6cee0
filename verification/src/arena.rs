use vstd::prelude::*;
use crate::dom::Node;
use crate::index::Index;

verus! {

#[verifier::external_type_specification]
#[verifier::external_body]
#[verifier::reject_recursive_types(T)]
pub struct ExArena<T>(thunderdome::Arena<T>);

/// What a node arena holds: each live key with the node stored under it. A
/// key stands for the `thunderdome::Index` with the same bits.
pub uninterp spec fn arena_nodes(arena: thunderdome::Arena<Node>) -> Map<Index, Node>;

/// `thunderdome::Arena::new`: an arena that holds nothing.
#[verifier::external_body]
pub(crate) fn arena_new() -> (r: thunderdome::Arena<Node>)
    ensures
        forall|index: Index| !arena_nodes(r).contains_key(index),
{
    thunderdome::Arena::new()
}

/// `thunderdome::Arena::len`: the number of live keys.
#[verifier::external_body]
pub(crate) fn arena_len(arena: &thunderdome::Arena<Node>) -> (r: usize)
    ensures
        r == arena_nodes(*arena).len(),
{
    arena.len()
}

/// `thunderdome::Arena::insert`: stores the node under a key that was not live
/// before the call, and leaves every other entry as it was. The key comes
/// back as its bits, from `thunderdome::Index::to_bits`. The arena refuses
/// more than `u32::MAX` entries, so the caller must leave room for one.
#[verifier::external_body]
pub(crate) fn arena_insert(arena: &mut thunderdome::Arena<Node>, node: Node) -> (r: Index)
    requires
        arena_nodes(*old(arena)).dom().finite(),
        arena_nodes(*old(arena)).len() < u32::MAX,
    ensures
        !arena_nodes(*old(arena)).contains_key(r),
        arena_nodes(*final(arena)) == arena_nodes(*old(arena)).insert(r, node),
{
    Index { bits: arena.insert(node).to_bits() }
}

/// `thunderdome::Arena::get`: the node under a live key, nothing under any
/// other. Bits that `thunderdome::Index::from_bits` takes for no key are the
/// bits of no live key.
#[verifier::external_body]
pub(crate) fn arena_get(arena: &thunderdome::Arena<Node>, index: Index) -> (r: Option<&Node>)
    ensures
        r == (if arena_nodes(*arena).contains_key(index) {
            Some(&arena_nodes(*arena)[index])
        } else {
            None
        }),
{
    arena.get(thunderdome::Index::from_bits(index.bits)?)
}

/// `thunderdome::Arena::get_mut`: the node under a live key, borrowed for
/// change; what the borrower leaves there is what the arena then holds.
#[verifier::external_body]
pub(crate) fn arena_get_mut(arena: &mut thunderdome::Arena<Node>, index: Index) -> (r: Option<&mut Node>)
    ensures
        match r {
            Some(node) => arena_nodes(*old(arena)).contains_key(index)
                && *node == arena_nodes(*old(arena))[index]
                && arena_nodes(*final(arena)) == arena_nodes(*old(arena)).insert(index, *final(node)),
            None => !arena_nodes(*old(arena)).contains_key(index)
                && arena_nodes(*final(arena)) == arena_nodes(*old(arena)),
        },
{
    arena.get_mut(thunderdome::Index::from_bits(index.bits)?)
}

/// `thunderdome::Arena::remove`: takes the node under a live key out and hands
/// it back; any other key changes nothing.
#[verifier::external_body]
pub(crate) fn arena_remove(arena: &mut thunderdome::Arena<Node>, index: Index) -> (r: Option<Node>)
    ensures
        r == (if arena_nodes(*old(arena)).contains_key(index) {
            Some(arena_nodes(*old(arena))[index])
        } else {
            None
        }),
        arena_nodes(*final(arena)) == arena_nodes(*old(arena)).remove(index),
{
    arena.remove(thunderdome::Index::from_bits(index.bits)?)
}

} // verus!
