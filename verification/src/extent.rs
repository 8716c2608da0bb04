//! What engines write, as extents of the output: runs of bytes, each with the
//! byte of the output at which it starts.

use vstd::prelude::*;

verus! {

/// What one engine wrote: the bytes, in order, and the byte of the output
/// at which the first of them stands.
#[derive(Debug)]
pub struct Extent {
    pub offset: u64,
    pub data: Vec<u8>,
}

/// The bytes of `extents`, one extent after the other.
pub open spec fn joined(extents: Seq<Extent>) -> Seq<u8>
    decreases extents.len(),
{
    if extents.len() == 0 {
        Seq::<u8>::empty()
    } else {
        joined(extents.drop_last()) + extents.last().data@
    }
}

/// Whether extent `index` of `extents`, if it holds anything, starts right
/// behind all that the extents before it hold, counted from byte `origin`
/// of the output. Where that is so of every extent, the extents neither
/// overlap nor leave a gap, in whatever order they are written.
pub open spec fn abuts(extents: Seq<Extent>, index: int, origin: u64) -> bool {
    extents[index].data@.len() > 0 ==> extents[index].offset == origin + joined(
        extents.take(index),
    ).len()
}

/// `file` after `data` has been written at byte `offset`. A write of
/// nothing leaves the file as it is. Any other write puts its bytes in
/// place, over what was there, and makes the file as long as it takes, with
/// zeros where nothing was ever written.
pub open spec fn written_at(file: Seq<u8>, offset: int, data: Seq<u8>) -> Seq<u8> {
    if data.len() == 0 {
        file
    } else {
        Seq::new(
            if offset + data.len() <= file.len() {
                file.len()
            } else {
                (offset + data.len()) as nat
            },
            |p: int|
                if offset <= p < offset + data.len() {
                    data[p - offset]
                } else if p < file.len() {
                    file[p]
                } else {
                    0u8
                },
        )
    }
}

/// The file that is left when the extents that `order` names are written
/// to an empty file at their own offsets, one after the other in that
/// order.
pub open spec fn image(extents: Seq<Extent>, order: Seq<int>) -> Seq<u8>
    decreases order.len(),
{
    if order.len() == 0 {
        Seq::<u8>::empty()
    } else {
        let extent = extents[order.last()];
        written_at(image(extents, order.drop_last()), extent.offset as int, extent.data@)
    }
}

/// Whether `order` names extents out of `count` only, and each of them at
/// least once.
pub open spec fn names_all(order: Seq<int>, count: nat) -> bool {
    &&& forall|k: int| 0 <= k < order.len() ==> 0 <= #[trigger] order[k] < count
    &&& forall|i: int| 0 <= i < count ==> order.contains(i)
}

/// Every extent has its place in the whole: its bytes stand in the joined
/// bytes right behind those of the extents before it.
pub proof fn lemma_extent_in_joined(extents: Seq<Extent>, index: int)
    requires
        0 <= index < extents.len(),
    ensures
        joined(extents.take(index)).len() + extents[index].data@.len() <= joined(extents).len(),
        forall|q: int|
            0 <= q < extents[index].data@.len() ==> #[trigger] joined(extents)[joined(
                extents.take(index),
            ).len() + q] == extents[index].data@[q],
    decreases extents.len(),
{
    let front = extents.drop_last();
    if index == extents.len() - 1 {
        assert(extents.take(index) == front);
    } else {
        lemma_extent_in_joined(front, index);
        assert(front.take(index) == extents.take(index));
        assert(front[index] == extents[index]);
        let before = joined(extents.take(index)).len();
        assert forall|q: int| 0 <= q < extents[index].data@.len() implies #[trigger] joined(
            extents,
        )[before + q] == extents[index].data@[q] by {
            assert(joined(front)[before + q] == front[index].data@[q]);
        }
    }
}

/// Every byte of the joined bytes belongs to an extent.
pub proof fn lemma_joined_byte_has_extent(extents: Seq<Extent>, at: int) -> (index: int)
    requires
        0 <= at < joined(extents).len(),
    ensures
        0 <= index < extents.len(),
        joined(extents.take(index)).len() <= at < joined(extents.take(index)).len()
            + extents[index].data@.len(),
    decreases extents.len(),
{
    let front = extents.drop_last();
    if at < joined(front).len() {
        let index = lemma_joined_byte_has_extent(front, at);
        assert(front.take(index) == extents.take(index));
        assert(front[index] == extents[index]);
        index
    } else {
        assert(extents.take(extents.len() - 1) == front);
        extents.len() - 1
    }
}

/// Whether `file` holds byte `at` of `whole` where it belongs: that far
/// behind the origin.
pub open spec fn in_place(file: Seq<u8>, whole: Seq<u8>, origin: u64, at: int) -> bool {
    origin + at < file.len() && file[origin + at] == whole[at]
}

/// Whether `file` holds the bytes of extent `index` where they belong:
/// behind the origin, as far in as the bytes of the extents before it reach.
pub open spec fn holds(file: Seq<u8>, extents: Seq<Extent>, origin: u64, index: int) -> bool {
    let start = joined(extents.take(index)).len();
    forall|at: int|
        start <= at < start + extents[index].data@.len() ==> #[trigger] in_place(
            file,
            joined(extents),
            origin,
            at,
        )
}

/// Writing an extent that abuts puts its bytes where they belong and leaves
/// the bytes of every other extent where they are.
proof fn lemma_write_keeps(
    file: Seq<u8>,
    extents: Seq<Extent>,
    origin: u64,
    written: int,
    index: int,
)
    requires
        0 <= written < extents.len(),
        0 <= index < extents.len(),
        abuts(extents, written, origin),
        index == written || holds(file, extents, origin, index),
    ensures
        holds(
            written_at(file, extents[written].offset as int, extents[written].data@),
            extents,
            origin,
            index,
        ),
{
    let data = extents[written].data@;
    let whole = joined(extents);
    let after = written_at(file, extents[written].offset as int, data);
    let start = joined(extents.take(index)).len();
    let place = joined(extents.take(written)).len();
    lemma_extent_in_joined(extents, written);
    lemma_extent_in_joined(extents, index);
    if data.len() > 0 {
        assert forall|at: int| start <= at < start + extents[index].data@.len() implies #[trigger] in_place(
            after,
            whole,
            origin,
            at,
        ) by {
            if place <= at < place + data.len() {
                assert(whole[place + (at - place)] == data[at - place]);
            } else {
                assert(in_place(file, whole, origin, at));
            }
        }
    }
}

/// What holds of the file while extents that abut are written in any order:
/// it is no longer than the whole, it holds zeros in front of the origin,
/// and it holds the bytes of every extent written so far where they belong.
proof fn lemma_image_so_far(extents: Seq<Extent>, origin: u64, order: Seq<int>)
    requires
        forall|i: int| 0 <= i < extents.len() ==> #[trigger] abuts(extents, i, origin),
        forall|k: int| 0 <= k < order.len() ==> 0 <= #[trigger] order[k] < extents.len(),
    ensures
        joined(extents).len() == 0 ==> image(extents, order).len() == 0,
        image(extents, order).len() <= origin + joined(extents).len(),
        forall|p: int|
            0 <= p < image(extents, order).len() && p < origin ==> #[trigger] image(
                extents,
                order,
            )[p] == 0,
        forall|k: int|
            0 <= k < order.len() ==> holds(image(extents, order), extents, origin, #[trigger] order[k]),
    decreases order.len(),
{
    if order.len() > 0 {
        let earlier = order.drop_last();
        let last = order.last();
        let before = image(extents, earlier);
        let after = image(extents, order);
        lemma_image_so_far(extents, origin, earlier);
        lemma_extent_in_joined(extents, last);
        assert(abuts(extents, last, origin));
        assert forall|k: int| 0 <= k < order.len() implies holds(
            after,
            extents,
            origin,
            #[trigger] order[k],
        ) by {
            if k < order.len() - 1 {
                assert(earlier[k] == order[k]);
            }
            lemma_write_keeps(before, extents, origin, last, order[k]);
        }
    }
}

/// Extents that abut leave the same file in whatever order they are
/// written, and if some are written more than once: the file that a single
/// write of all their bytes, end to end, leaves at the origin.
pub proof fn lemma_any_order_same_file(extents: Seq<Extent>, origin: u64, order: Seq<int>)
    requires
        forall|i: int| 0 <= i < extents.len() ==> #[trigger] abuts(extents, i, origin),
        names_all(order, extents.len()),
    ensures
        image(extents, order) == written_at(Seq::<u8>::empty(), origin as int, joined(extents)),
{
    let whole = joined(extents);
    let file = image(extents, order);
    let single = written_at(Seq::<u8>::empty(), origin as int, whole);
    lemma_image_so_far(extents, origin, order);
    if whole.len() > 0 {
        assert forall|at: int| 0 <= at < whole.len() implies in_place(file, whole, origin, at) by {
            let i = lemma_joined_byte_has_extent(extents, at);
            assert(order.contains(i));
            let k = choose|k: int| 0 <= k < order.len() && order[k] == i;
            assert(holds(file, extents, origin, order[k]));
        }
        assert(in_place(file, whole, origin, whole.len() - 1));
        assert forall|p: int| 0 <= p < file.len() implies file[p] == single[p] by {
            if p >= origin {
                assert(in_place(file, whole, origin, p - origin));
            }
        }
    }
    assert(file =~= single);
}

/// What several engines write in any order is what one engine writes: if
/// the extents abut behind the offset of `whole` and hold, end to end, the
/// bytes of `whole`, they leave the file that `whole` leaves by itself.
pub proof fn lemma_extents_leave_file_of_whole(whole: Extent, extents: Seq<Extent>, order: Seq<int>)
    requires
        forall|i: int| 0 <= i < extents.len() ==> #[trigger] abuts(extents, i, whole.offset),
        names_all(order, extents.len()),
        joined(extents) == whole.data@,
    ensures
        image(extents, order) == image(seq![whole], seq![0int]),
{
    lemma_any_order_same_file(extents, whole.offset, order);
    let alone = seq![whole];
    let once = seq![0int];
    assert(once.drop_last() == Seq::<int>::empty());
    assert(image(alone, once.drop_last()) == Seq::<u8>::empty());
    assert(alone[once.last()] == whole);
}

/// Writes `data` into `file` at byte `offset`, as a positioned write does.
pub fn write_at(file: &mut Vec<u8>, offset: usize, data: &[u8])
    requires
        offset + data@.len() <= usize::MAX,
    ensures
        final(file)@ == written_at(old(file)@, offset as int, data@),
{
    if data.len() == 0 {
        return ;
    }
    let end = offset + data.len();
    while file.len() < end
        invariant
            old(file)@.len() <= file@.len(),
            file@.len() <= end || file@.len() == old(file)@.len(),
            forall|p: int| 0 <= p < old(file)@.len() ==> file@[p] == old(file)@[p],
            forall|p: int| old(file)@.len() <= p < file@.len() ==> file@[p] == 0,
        decreases end - file@.len(),
    {
        file.push(0);
    }
    let ghost padded = file@;
    assert(padded.len() == if end <= old(file)@.len() {
        old(file)@.len()
    } else {
        end as nat
    });
    let mut i: usize = 0;
    while i < data.len()
        invariant
            i <= data@.len(),
            end == offset + data@.len(),
            end <= file@.len(),
            file@.len() == padded.len(),
            forall|p: int| offset <= p < offset + i ==> file@[p] == data@[p - offset],
            forall|p: int|
                0 <= p < file@.len() && !(offset <= p < offset + i) ==> file@[p] == padded[p],
        decreases data@.len() - i,
    {
        file[offset + i] = data[i];
        i = i + 1;
    }
    proof {
        let after = written_at(old(file)@, offset as int, data@);
        assert(file@.len() == after.len());
        assert forall|p: int| 0 <= p < file@.len() implies file@[p] == after[p] by {
            if !(offset <= p < offset + data@.len()) {
                assert(file@[p] == padded[p]);
            }
        }
        assert(file@ =~= after);
    }
}

/// The numbers of `order` as positions in a sequence of extents.
pub open spec fn positions(order: Seq<usize>) -> Seq<int> {
    Seq::new(order.len(), |k: int| order[k] as int)
}

/// Writes the extents that `order` names to an empty file at their own
/// offsets, one after the other in that order, and returns the file.
pub fn lay_out(extents: &Vec<Extent>, order: &Vec<usize>) -> (file: Vec<u8>)
    requires
        forall|k: int| 0 <= k < order@.len() ==> #[trigger] order@[k] < extents@.len(),
        forall|i: int|
            0 <= i < extents@.len() ==> (#[trigger] extents@[i]).offset + extents@[i].data@.len()
                <= usize::MAX,
    ensures
        file@ == image(extents@, positions(order@)),
{
    let mut file: Vec<u8> = Vec::new();
    let mut k: usize = 0;
    while k < order.len()
        invariant
            k <= order@.len(),
            forall|k: int| 0 <= k < order@.len() ==> #[trigger] order@[k] < extents@.len(),
            forall|i: int|
                0 <= i < extents@.len() ==> (#[trigger] extents@[i]).offset
                    + extents@[i].data@.len() <= usize::MAX,
            file@ == image(extents@, positions(order@).take(k as int)),
        decreases order@.len() - k,
    {
        let extent = &extents[order[k]];
        proof {
            let so_far = positions(order@).take(k + 1);
            assert(so_far.drop_last() == positions(order@).take(k as int));
            assert(so_far.last() == order@[k as int]);
        }
        write_at(&mut file, extent.offset as usize, extent.data.as_slice());
        k = k + 1;
    }
    assert(positions(order@).take(k as int) == positions(order@));
    file
}

} // verus!
