//! The global laws of the model, proved once and for all: color cycling,
//! idempotent reconstruction, and conservation of free space.

use vstd::prelude::*;
use crate::block_group::{
    bg_del_result, bg_ins_result, bg_new_view, bg_view_wf, del_ext_seq, find_ext, free_max,
    free_total, ins_ext_seq, spec_next_color, sum_of_extent_lens, BgView, Extent,
};
use crate::raster::{all_white, lemma_painted_pointwise, painted, touched, Color};

verus! {

/// The color cursor cycles red, green, blue, red, ...; a fresh block
/// group starts at red, so its first three inserts paint red, then
/// green, then blue.
pub proof fn lemma_color_cycle()
    ensures
        spec_next_color(Color::Red) == Color::Green,
        spec_next_color(Color::Green) == Color::Blue,
        spec_next_color(Color::Blue) == Color::Red,
{
}

/// Three successive successful inserts into a block group whose cursor
/// stands at red (as a fresh group's does) paint their blocks red, then
/// green, then blue.
pub proof fn lemma_color_cycle_paints(
    v: BgView,
    o1: u64,
    l1: u64,
    o2: u64,
    l2: u64,
    o3: u64,
    l3: u64,
)
    requires
        v.cursor == Color::Red,
        bg_ins_result(v, o1, l1) is Ok,
        bg_ins_result(bg_ins_result(v, o1, l1)->Ok_0, o2, l2) is Ok,
        bg_ins_result(
            bg_ins_result(bg_ins_result(v, o1, l1)->Ok_0, o2, l2)->Ok_0,
            o3,
            l3,
        ) is Ok,
    ensures
        bg_ins_result(v, o1, l1)->Ok_0.img == painted(
            v.img,
            (o1 - v.offset) as int / crate::BLOCK as int,
            l1 as int / crate::BLOCK as int,
            Color::Red,
        ),
        bg_ins_result(bg_ins_result(v, o1, l1)->Ok_0, o2, l2)->Ok_0.img == painted(
            bg_ins_result(v, o1, l1)->Ok_0.img,
            (o2 - v.offset) as int / crate::BLOCK as int,
            l2 as int / crate::BLOCK as int,
            Color::Green,
        ),
        bg_ins_result(
            bg_ins_result(bg_ins_result(v, o1, l1)->Ok_0, o2, l2)->Ok_0,
            o3,
            l3,
        )->Ok_0.img == painted(
            bg_ins_result(bg_ins_result(v, o1, l1)->Ok_0, o2, l2)->Ok_0.img,
            (o3 - v.offset) as int / crate::BLOCK as int,
            l3 as int / crate::BLOCK as int,
            Color::Blue,
        ),
{
}

/// Deleting the key just inserted restores the extent map, whenever that
/// key was not present before.
proof fn lemma_del_after_ins(s: Seq<Extent>, o: u64, l: u64)
    requires
        find_ext(s, o) is None,
    ensures
        del_ext_seq(ins_ext_seq(s, o, l), o) == s,
    decreases s.len(),
{
    let e = Extent { offset: o, len: l };
    if s.len() == 0 {
        assert(del_ext_seq(ins_ext_seq(s, o, l), o) =~= s);
    } else if o < s[0].offset {
        assert(ins_ext_seq(s, o, l) == seq![e] + s);
        assert((seq![e] + s)[0] == e);
        assert(del_ext_seq(seq![e] + s, o) =~= s);
    } else {
        assert(s[0].offset != o);
        let rest = s.drop_first();
        lemma_del_after_ins(rest, o, l);
        let ins = ins_ext_seq(s, o, l);
        assert(ins == seq![s[0]] + ins_ext_seq(rest, o, l));
        assert(ins[0] == s[0]);
        assert(ins.drop_first() =~= ins_ext_seq(rest, o, l));
        assert(del_ext_seq(ins, o) =~= seq![s[0]] + del_ext_seq(ins_ext_seq(rest, o, l), o));
        assert(del_ext_seq(ins, o) =~= s);
    }
}

/// Idempotent reconstruction: inserting an extent that was not there and
/// then deleting it leaves the extent map exactly as it began, and
/// repainting the same block range white on a canvas that was white
/// there restores the canvas pixel for pixel.
pub proof fn lemma_insert_delete_restores(
    s: Seq<Extent>,
    o: u64,
    l: u64,
    img: Seq<Color>,
    first: int,
    count: int,
    c: Color,
)
    requires
        find_ext(s, o) is None,
        img.len() == crate::CANVAS_DIM * crate::CANVAS_DIM,
        forall|p: int| 0 <= p < img.len() ==> img[p] == Color::White,
    ensures
        del_ext_seq(ins_ext_seq(s, o, l), o) == s,
        painted(painted(img, first, count, c), first, count, Color::White) == img,
{
    lemma_del_after_ins(s, o, l);
    let mid = painted(img, first, count, c);
    lemma_painted_pointwise(img, first, count, c);
    lemma_painted_pointwise(mid, first, count, Color::White);
    assert forall|p: int| 0 <= p < img.len() implies painted(mid, first, count, Color::White)[p]
        == img[p] by {
        if touched(first, count, p) {
        } else {
            assert(mid[p] == img[p]);
        }
    }
    assert(painted(mid, first, count, Color::White) =~= img);
}

/// Inserting an extent into a fresh block group and deleting it again
/// leaves the extent map and the raster exactly as a fresh group has
/// them. (The color cursor, the snapshot counter and the observed-kinds
/// record do advance.)
pub proof fn lemma_fresh_insert_delete_restores(
    offset: u64,
    len: u64,
    dump: bool,
    o: u64,
    l: u64,
)
    requires
        bg_ins_result(bg_new_view(offset, len, dump), o, l) is Ok,
    ensures
        ({
            let v = bg_new_view(offset, len, dump);
            let v1 = bg_ins_result(v, o, l)->Ok_0;
            &&& bg_del_result(v1, o) is Ok
            &&& bg_del_result(v1, o)->Ok_0.extents == v.extents
            &&& bg_del_result(v1, o)->Ok_0.img == v.img
        }),
{
    let v = bg_new_view(offset, len, dump);
    let v1 = bg_ins_result(v, o, l)->Ok_0;
    let e = Extent { offset: o, len: l };
    assert(v1.extents =~= seq![e]);
    assert(find_ext(v1.extents, o) == Some(l));
    let sb = (o - v.offset) as int / crate::BLOCK as int;
    let nb = l as int / crate::BLOCK as int;
    assert forall|p: int| 0 <= p < all_white().len() implies all_white()[p] == Color::White by {
    }
    lemma_insert_delete_restores(Seq::empty(), o, l, all_white(), sb, nb, v.cursor);
    assert(bg_del_result(v1, o)->Ok_0.extents =~= v.extents);
}

/// Conservation of free space along the sweep: when the extents are
/// sorted and pairwise disjoint, the free runs and the extents tile the
/// stretch from `last_end` to `bg_end` exactly.
proof fn lemma_sweep_conservation(s: Seq<Extent>, last_end: int, bg_end: int)
    requires
        forall|i: int| 0 <= i < s.len() ==> (#[trigger] s[i]).offset + s[i].len <= bg_end,
        forall|i: int|
            0 <= i < s.len() - 1 ==> (#[trigger] s[i]).offset + s[i].len <= s[i + 1].offset,
        s.len() > 0 ==> last_end <= s[0].offset,
        last_end <= bg_end,
    ensures
        free_total(s, last_end, bg_end) + sum_of_extent_lens(s) == bg_end - last_end,
        free_total(s, last_end, bg_end) >= 0,
    decreases s.len(),
{
    if s.len() > 0 {
        let rest = s.drop_first();
        assert forall|i: int| 0 <= i < rest.len() implies (#[trigger] rest[i]).offset
            + rest[i].len <= bg_end by {
            assert(rest[i] == s[i + 1]);
        }
        assert forall|i: int| 0 <= i < rest.len() - 1 implies (#[trigger] rest[i]).offset
            + rest[i].len <= rest[i + 1].offset by {
            assert(rest[i] == s[i + 1]);
            assert(rest[i + 1] == s[i + 2]);
        }
        if rest.len() > 0 {
            assert(rest[0] == s[1]);
        }
        lemma_sweep_conservation(rest, s[0].offset + s[0].len, bg_end);
    }
}

/// Bounds of the sweep under sorted, in-bounds extents: runs are
/// nonnegative, the largest run is at most the total, and the total
/// never passes the stretch from `base` to `bg_end`.
proof fn lemma_sweep_bounds(s: Seq<Extent>, base: int, last_end: int, bg_end: int)
    requires
        forall|i: int| 0 <= i < s.len() ==> base <= (#[trigger] s[i]).offset,
        forall|i: int| 0 <= i < s.len() ==> (#[trigger] s[i]).offset + s[i].len <= bg_end,
        forall|i: int, j: int|
            0 <= i < j < s.len() ==> (#[trigger] s[i]).offset < (#[trigger] s[j]).offset,
        last_end >= base,
        bg_end >= base,
    ensures
        0 <= free_max(s, last_end, bg_end),
        free_max(s, last_end, bg_end) <= free_total(s, last_end, bg_end),
        free_total(s, last_end, bg_end) <= bg_end - base,
    decreases s.len(),
{
    if s.len() > 0 {
        let rest = s.drop_first();
        assert forall|i: int| 0 <= i < rest.len() implies s[0].offset <= (
        #[trigger] rest[i]).offset by {
            assert(rest[i] == s[i + 1]);
        }
        assert forall|i: int| 0 <= i < rest.len() implies (#[trigger] rest[i]).offset
            + rest[i].len <= bg_end by {
            assert(rest[i] == s[i + 1]);
        }
        assert forall|i: int, j: int| 0 <= i < j < rest.len() implies (
        #[trigger] rest[i]).offset < (#[trigger] rest[j]).offset by {
            assert(rest[i] == s[i + 1]);
            assert(rest[j] == s[j + 1]);
        }
        lemma_sweep_bounds(rest, s[0].offset as int, s[0].offset + s[0].len, bg_end);
    }
}

/// The free-space summary of a well-formed block group is sane: the
/// largest free run is at most the total, and the total free space never
/// exceeds the group's length. The fragmentation percentage derived from
/// them therefore lies in `[0, 100)`, and the sweep can never find more
/// free space than the group holds.
pub proof fn lemma_fragmentation_bounds(v: BgView)
    requires
        bg_view_wf(v),
    ensures
        0 <= free_max(v.extents, v.offset as int, v.offset + v.len),
        free_max(v.extents, v.offset as int, v.offset + v.len) <= free_total(
            v.extents,
            v.offset as int,
            v.offset + v.len,
        ),
        free_total(v.extents, v.offset as int, v.offset + v.len) <= v.len,
{
    lemma_sweep_bounds(v.extents, v.offset as int, v.offset as int, v.offset + v.len);
}

/// For every block group whose extents are pairwise disjoint, the sum of
/// its extent lengths plus its total free space equals its length.
pub proof fn lemma_free_space_conservation(v: BgView)
    requires
        bg_view_wf(v),
        forall|i: int|
            0 <= i < v.extents.len() - 1 ==> (#[trigger] v.extents[i]).offset
                + v.extents[i].len <= v.extents[i + 1].offset,
    ensures
        free_total(v.extents, v.offset as int, v.offset + v.len) + sum_of_extent_lens(v.extents)
            == v.len,
{
    if v.extents.len() > 0 {
        assert(v.offset <= v.extents[0].offset);
    }
    lemma_sweep_conservation(v.extents, v.offset as int, v.offset + v.len);
}

} // verus!
