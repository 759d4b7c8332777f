//! Bounded lists of references to the inputs of a batch, kept in an
//! `ArrayVec` of the crate `arrayvec`. Verus does not look inside an
//! `ArrayVec`: what the functions here say of it is read off the source of
//! `arrayvec` and is believed, not proved.

use vstd::prelude::*;
use arrayvec::ArrayVec;
use crate::tree_model::input_views;

verus! {

/// At most 31 references to chunks, in the order in which they were added.
/// The list is an `ArrayVec` over an array of 31 references, which Verus
/// takes as an opaque value.
#[verifier::external_body]
pub struct ChunkRefs<'a> {
    refs: ArrayVec<[&'a [u8; 1024]; 31]>,
}

/// The chunks that the references of a list point to, in the order of the
/// list. Nothing is known of it but what the three functions below say.
pub uninterp spec fn chunk_refs_view(list: ChunkRefs) -> Seq<Seq<u8>>;

/// Wraps `ArrayVec::new`. Believed: the new list has no entries.
#[verifier::external_body]
pub(crate) fn chunk_refs_new<'a>() -> (list: ChunkRefs<'a>)
    ensures
        chunk_refs_view(list) == Seq::<Seq<u8>>::empty(),
{
    ChunkRefs { refs: ArrayVec::new() }
}

/// Wraps `ArrayVec::push`, which panics on a full list; so the list must have
/// fewer than 31 entries. Believed: the entries stay as they are, and the new
/// one comes after them.
#[verifier::external_body]
pub(crate) fn chunk_refs_push<'a>(list: &mut ChunkRefs<'a>, chunk: &'a [u8; 1024])
    requires
        chunk_refs_view(*old(list)).len() < 31,
    ensures
        chunk_refs_view(*final(list)) == chunk_refs_view(*old(list)).push(chunk@),
{
    list.refs.push(chunk)
}

/// Wraps `ArrayVec::as_slice`. Believed: the slice holds the entries of the
/// list, all of them and in order.
#[verifier::external_body]
pub(crate) fn chunk_refs_as_slice<'a, 'b>(list: &'b ChunkRefs<'a>) -> (slice: &'b [&'a [u8; 1024]])
    ensures
        input_views(slice@) == chunk_refs_view(*list),
{
    list.refs.as_slice()
}

/// At most 31 references to parent blocks, in the order in which they were
/// added. The list is an `ArrayVec` over an array of 31 references, which
/// Verus takes as an opaque value.
#[verifier::external_body]
pub struct ParentRefs<'a> {
    refs: ArrayVec<[&'a [u8; 64]; 31]>,
}

/// The parent blocks that the references of a list point to, in the order of
/// the list. Nothing is known of it but what the three functions below say.
pub uninterp spec fn parent_refs_view(list: ParentRefs) -> Seq<Seq<u8>>;

/// Wraps `ArrayVec::new`. Believed: the new list has no entries.
#[verifier::external_body]
pub(crate) fn parent_refs_new<'a>() -> (list: ParentRefs<'a>)
    ensures
        parent_refs_view(list) == Seq::<Seq<u8>>::empty(),
{
    ParentRefs { refs: ArrayVec::new() }
}

/// Wraps `ArrayVec::push`, which panics on a full list; so the list must have
/// fewer than 31 entries. Believed: the entries stay as they are, and the new
/// one comes after them.
#[verifier::external_body]
pub(crate) fn parent_refs_push<'a>(list: &mut ParentRefs<'a>, block: &'a [u8; 64])
    requires
        parent_refs_view(*old(list)).len() < 31,
    ensures
        parent_refs_view(*final(list)) == parent_refs_view(*old(list)).push(block@),
{
    list.refs.push(block)
}

/// Wraps `ArrayVec::as_slice`. Believed: the slice holds the entries of the
/// list, all of them and in order.
#[verifier::external_body]
pub(crate) fn parent_refs_as_slice<'a, 'b>(list: &'b ParentRefs<'a>) -> (slice: &'b [&'a [u8; 64]])
    ensures
        input_views(slice@) == parent_refs_view(*list),
{
    list.refs.as_slice()
}

} // verus!
