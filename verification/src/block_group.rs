//! A block group: a contiguous byte range carved out for allocation,
//! holding an ordered map of live extents (kept as a vector sorted by
//! extent offset), the set of extent kinds seen so far, and a raster that
//! pictures which blocks are occupied.

use vstd::prelude::*;
use crate::errors::FragViewError;
use crate::frag::BlockGroupFragmentation;
use crate::raster::{all_white, draw_extent, painted, Color, Raster};
use crate::decimal::dec_str;

verus! {

/// One live extent: a contiguous allocated byte range.
#[derive(Debug, Clone, Copy, PartialEq, Eq, Structural)]
pub struct Extent {
    pub offset: u64,
    pub len: u64,
}

/// The extent list is strictly sorted by offset (offsets are the map
/// keys) and every extent lies inside the block group.
pub open spec fn extents_wf(s: Seq<Extent>, bg_offset: u64, bg_len: u64) -> bool {
    &&& forall|i: int|
        0 <= i < s.len() ==> bg_offset <= (#[trigger] s[i]).offset && s[i].offset - bg_offset
            + s[i].len <= bg_len
    &&& forall|i: int, j: int|
        0 <= i < j < s.len() ==> (#[trigger] s[i]).offset < (#[trigger] s[j]).offset
}

/// The length recorded for offset `o`, if an extent starts there.
pub open spec fn find_ext(s: Seq<Extent>, o: u64) -> Option<u64>
    decreases s.len(),
{
    if s.len() == 0 {
        None
    } else if s[0].offset == o {
        Some(s[0].len)
    } else {
        find_ext(s.drop_first(), o)
    }
}

/// The extent list after an insert at offset `o`: ordered-map semantics,
/// so an extent already at `o` is overwritten.
pub open spec fn ins_ext_seq(s: Seq<Extent>, o: u64, l: u64) -> Seq<Extent>
    decreases s.len(),
{
    if s.len() == 0 {
        seq![Extent { offset: o, len: l }]
    } else if o < s[0].offset {
        seq![Extent { offset: o, len: l }] + s
    } else if o == s[0].offset {
        seq![Extent { offset: o, len: l }] + s.drop_first()
    } else {
        seq![s[0]] + ins_ext_seq(s.drop_first(), o, l)
    }
}

/// The extent list after a delete at offset `o` (unchanged if no extent
/// starts there).
pub open spec fn del_ext_seq(s: Seq<Extent>, o: u64) -> Seq<Extent>
    decreases s.len(),
{
    if s.len() == 0 {
        s
    } else if s[0].offset == o {
        s.drop_first()
    } else {
        seq![s[0]] + del_ext_seq(s.drop_first(), o)
    }
}

/// Total free bytes found by the left-to-right sweep of §free-space:
/// starting from `last_end`, each extent opens a free run over the gap
/// before it, and the tail past the last extent closes the sweep at
/// `bg_end`.
pub open spec fn free_total(s: Seq<Extent>, last_end: int, bg_end: int) -> int
    decreases s.len(),
{
    if s.len() == 0 {
        if bg_end > last_end {
            bg_end - last_end
        } else {
            0
        }
    } else {
        let gap = if s[0].offset > last_end {
            s[0].offset - last_end
        } else {
            0
        };
        gap + free_total(s.drop_first(), s[0].offset + s[0].len, bg_end)
    }
}

/// The largest single free run found by the same sweep.
pub open spec fn free_max(s: Seq<Extent>, last_end: int, bg_end: int) -> int
    decreases s.len(),
{
    if s.len() == 0 {
        if bg_end > last_end {
            bg_end - last_end
        } else {
            0
        }
    } else {
        let gap = if s[0].offset > last_end {
            s[0].offset - last_end
        } else {
            0
        };
        let rest = free_max(s.drop_first(), s[0].offset + s[0].len, bg_end);
        if gap > rest {
            gap
        } else {
            rest
        }
    }
}

/// Sum of the byte lengths of all extents in the list.
pub open spec fn sum_of_extent_lens(s: Seq<Extent>) -> int
    decreases s.len(),
{
    if s.len() == 0 {
        0
    } else {
        s[0].len + sum_of_extent_lens(s.drop_first())
    }
}

/// The color painted after `c`: the cursor cycles red, green, blue.
pub open spec fn spec_next_color(c: Color) -> Color {
    match c {
        Color::Red => Color::Green,
        Color::Green => Color::Blue,
        Color::Blue => Color::Red,
        Color::White => Color::Red,
    }
}

/// Only the three palette colors are legal cursor values.
pub open spec fn cursor_ok(c: Color) -> bool {
    c == Color::Red || c == Color::Green || c == Color::Blue
}

/// `a + b`, stopping at the top of the `u64` range. Used only for the
/// offsets reported inside boundary errors.
pub open spec fn sat_add(a: u64, b: u64) -> u64 {
    if a + b > u64::MAX {
        u64::MAX
    } else {
        (a + b) as u64
    }
}

/// The snapshot counter after one more event: it moves only while
/// per-change dumping is on, and stops at the top of its range.
pub open spec fn next_dump_count(dump: bool, n: usize) -> usize {
    if dump && n < usize::MAX {
        (n + 1) as usize
    } else {
        n
    }
}

/// The block group's human label: the kinds seen so far (or `Empty`),
/// then a dash, then the start offset in decimal.
pub open spec fn spec_name(has_data: bool, has_meta: bool, offset: u64) -> Seq<char> {
    (if has_data && has_meta {
        "Data-Metadata"@
    } else if has_data {
        "Data"@
    } else if has_meta {
        "Metadata"@
    } else {
        "Empty"@
    }) + "-"@ + dec_str(offset as int)
}

/// The mathematical value of a block group: every field the analyzer
/// tracks, with the containers replaced by their abstract contents.
#[verifier::ext_equal]
pub struct BgView {
    pub offset: u64,
    pub len: u64,
    pub extents: Seq<Extent>,
    pub has_data: bool,
    pub has_meta: bool,
    pub img: Seq<Color>,
    pub cursor: Color,
    pub dump: bool,
    pub dump_count: usize,
}

/// Internal consistency, stated on the abstract value.
pub open spec fn bg_view_wf(v: BgView) -> bool {
    &&& v.img.len() == crate::CANVAS_DIM * crate::CANVAS_DIM
    &&& cursor_ok(v.cursor)
    &&& extents_wf(v.extents, v.offset, v.len)
}

/// The value of a fresh block group.
pub open spec fn bg_new_view(offset: u64, len: u64, dump: bool) -> BgView {
    BgView {
        offset: offset,
        len: len,
        extents: Seq::empty(),
        has_data: false,
        has_meta: false,
        img: all_white(),
        cursor: Color::Red,
        dump: dump,
        dump_count: 0,
    }
}

/// What inserting an extent does to a block group: the boundary checks,
/// then the map insert, the painting with the cursor's color, and the
/// cursor advance.
pub open spec fn bg_ins_result(v: BgView, o: u64, l: u64) -> Result<BgView, FragViewError> {
    if o < v.offset {
        Err(FragViewError::BeforeStart(o, v.offset))
    } else if o - v.offset + l > v.len {
        Err(FragViewError::PastEnd(sat_add(o, l), sat_add(v.offset, v.len)))
    } else {
        Ok(
            BgView {
                extents: ins_ext_seq(v.extents, o, l),
                img: painted(
                    v.img,
                    (o - v.offset) as int / crate::BLOCK as int,
                    l as int / crate::BLOCK as int,
                    v.cursor,
                ),
                cursor: spec_next_color(v.cursor),
                dump_count: next_dump_count(v.dump, v.dump_count),
                ..v
            },
        )
    }
}

/// What deleting an extent does to a block group: the map removal and
/// the repainting of its blocks in white.
pub open spec fn bg_del_result(v: BgView, o: u64) -> Result<BgView, FragViewError> {
    match find_ext(v.extents, o) {
        None => Err(FragViewError::MissingExtent(o, v.offset)),
        Some(el) => Ok(
            BgView {
                extents: del_ext_seq(v.extents, o),
                img: painted(
                    v.img,
                    (o - v.offset) as int / crate::BLOCK as int,
                    el as int / crate::BLOCK as int,
                    Color::White,
                ),
                dump_count: next_dump_count(v.dump, v.dump_count),
                ..v
            },
        ),
    }
}

/// A block group and everything the analyzer tracks about it.
pub struct BlockGroup {
    /// Start byte offset of the group.
    pub offset: u64,
    /// Length of the group in bytes.
    pub len: u64,
    /// Live extents, sorted by start offset (the ordered map).
    pub extents: Vec<Extent>,
    /// Whether a data extent has ever been routed here.
    pub has_data: bool,
    /// Whether a metadata extent has ever been routed here.
    pub has_meta: bool,
    /// The occupancy picture.
    pub img: Raster,
    /// The palette color the next insert will paint with.
    pub next_extent_color: Color,
    /// Whether a snapshot is recorded after every change.
    pub dump: bool,
    /// How many per-change snapshots have been recorded.
    pub dump_count: usize,
}

impl View for BlockGroup {
    type V = BgView;

    open spec fn view(&self) -> BgView {
        BgView {
            offset: self.offset,
            len: self.len,
            extents: self.extents@,
            has_data: self.has_data,
            has_meta: self.has_meta,
            img: self.img@,
            cursor: self.next_extent_color,
            dump: self.dump,
            dump_count: self.dump_count,
        }
    }
}

impl BlockGroup {
    /// Internal consistency of a block group.
    pub open spec fn well_formed(&self) -> bool {
        &&& self.img.well_formed()
        &&& cursor_ok(self.next_extent_color)
        &&& extents_wf(self.extents@, self.offset, self.len)
    }

    /// A fresh, empty block group with a white canvas; the first insert
    /// will paint red.
    pub fn new(offset: u64, len: u64, dump: bool) -> (r: BlockGroup)
        ensures
            r.well_formed(),
            r.offset == offset,
            r.len == len,
            r.extents@ =~= Seq::<Extent>::empty(),
            !r.has_data,
            !r.has_meta,
            r.img@ == all_white(),
            r.next_extent_color == Color::Red,
            r.dump == dump,
            r.dump_count == 0,
            r@ == bg_new_view(offset, len, dump),
    {
        let r = BlockGroup {
            offset: offset,
            len: len,
            extents: Vec::new(),
            has_data: false,
            has_meta: false,
            img: Raster::new_white(),
            next_extent_color: Color::Red,
            dump: dump,
            dump_count: 0,
        };
        proof {
            assert(r@ =~= bg_new_view(offset, len, dump));
        }
        r
    }

    /// Hand out the color for the insert at hand and advance the cursor
    /// one step along the red, green, blue cycle.
    pub fn get_next_extent_color(&mut self) -> (c: Color)
        requires
            cursor_ok(old(self).next_extent_color),
        ensures
            c == old(self).next_extent_color,
            final(self).next_extent_color == spec_next_color(old(self).next_extent_color),
            cursor_ok(final(self).next_extent_color),
            *final(self) == (BlockGroup {
                next_extent_color: final(self).next_extent_color,
                ..*old(self)
            }),
    {
        let c = self.next_extent_color;
        self.next_extent_color = match c {
            Color::Red => Color::Green,
            Color::Green => Color::Blue,
            Color::Blue => Color::Red,
            Color::White => Color::Red,
        };
        c
    }

    /// Bump the per-change snapshot counter if dumping is on.
    fn count_dump(&mut self)
        ensures
            final(self).dump_count == next_dump_count(old(self).dump, old(self).dump_count),
            *final(self) == (BlockGroup { dump_count: final(self).dump_count, ..*old(self) }),
    {
        if self.dump && self.dump_count < usize::MAX {
            self.dump_count = self.dump_count + 1;
        }
    }

    /// Insert an extent. The extent must start at or after the group's
    /// start (else `BeforeStart`) and end at or before the group's end
    /// (else `PastEnd`); on success it is recorded in the ordered map and
    /// its blocks are painted with the next cycling color.
    pub fn ins_extent(&mut self, offset: u64, len: u64) -> (r: Result<(), FragViewError>)
        requires
            old(self).well_formed(),
        ensures
            final(self).well_formed(),
            match r {
                Ok(_) => bg_ins_result(old(self)@, offset, len) == Ok::<BgView, FragViewError>(
                    final(self)@,
                ),
                Err(e) => bg_ins_result(old(self)@, offset, len) == Err::<BgView, FragViewError>(
                    e,
                ),
            },
            match r {
                Ok(_) => {
                    &&& old(self).offset <= offset
                    &&& offset - old(self).offset + len <= old(self).len
                    &&& final(self).extents@ == ins_ext_seq(old(self).extents@, offset, len)
                    &&& final(self).img@ == painted(
                        old(self).img@,
                        (offset - old(self).offset) as int / crate::BLOCK as int,
                        len as int / crate::BLOCK as int,
                        old(self).next_extent_color,
                    )
                    &&& final(self).next_extent_color == spec_next_color(
                        old(self).next_extent_color,
                    )
                    &&& final(self).dump_count == next_dump_count(
                        old(self).dump,
                        old(self).dump_count,
                    )
                    &&& final(self).offset == old(self).offset
                    &&& final(self).len == old(self).len
                    &&& final(self).has_data == old(self).has_data
                    &&& final(self).has_meta == old(self).has_meta
                    &&& final(self).dump == old(self).dump
                },
                Err(e) => {
                    &&& *final(self) == *old(self)
                    &&& if offset < old(self).offset {
                        e == FragViewError::BeforeStart(offset, old(self).offset)
                    } else {
                        &&& offset - old(self).offset + len > old(self).len
                        &&& e == FragViewError::PastEnd(
                            sat_add(offset, len),
                            sat_add(old(self).offset, old(self).len),
                        )
                    }
                },
            },
    {
        if offset < self.offset {
            return Err(FragViewError::BeforeStart(offset, self.offset));
        }
        let rel = offset - self.offset;
        if rel > self.len || len > self.len - rel {
            let e_end = if offset > u64::MAX - len {
                u64::MAX
            } else {
                offset + len
            };
            let g_end = if self.offset > u64::MAX - self.len {
                u64::MAX
            } else {
                self.offset + self.len
            };
            return Err(FragViewError::PastEnd(e_end, g_end));
        }
        let ghost old_exts = self.extents@;
        let mut idx: usize = 0;
        while idx < self.extents.len() && self.extents[idx].offset < offset
            invariant
                0 <= idx <= self.extents@.len(),
                self.extents@ == old_exts,
                forall|i: int| 0 <= i < idx ==> (#[trigger] old_exts[i]).offset < offset,
            decreases self.extents@.len() - idx,
        {
            idx = idx + 1;
        }
        let e = Extent { offset: offset, len: len };
        if idx < self.extents.len() && self.extents[idx].offset == offset {
            self.extents.set(idx, e);
        } else {
            self.extents.insert(idx, e);
        }
        proof {
            lemma_ins_ext_seq_at(old_exts, offset, len, idx as int);
            let news = self.extents@;
            assert(news == ins_ext_seq(old_exts, offset, len));
            assert forall|i: int, j: int|
                0 <= i < j < news.len() implies (#[trigger] news[i]).offset < (
            #[trigger] news[j]).offset by {
                if idx < old_exts.len() && old_exts[idx as int].offset == offset {
                    assert(news == old_exts.update(idx as int, e));
                } else {
                    assert(news == old_exts.insert(idx as int, e));
                    assert(forall|k: int|
                        0 <= k < idx ==> news[k] == (#[trigger] old_exts[k]));
                    assert(forall|k: int|
                        idx < k < news.len() ==> (#[trigger] news[k]) == old_exts[k - 1]);
                }
            }
            assert(extents_wf(news, self.offset, self.len));
        }
        let color = self.get_next_extent_color();
        draw_extent(&mut self.img, self.offset, offset, len, crate::bg_dim(self.len), color);
        self.count_dump();
        proof {
            assert(self@ =~= bg_ins_result(old(self)@, offset, len)->Ok_0);
        }
        Ok(())
    }

    /// Delete the extent starting at `offset`: it is removed from the
    /// ordered map and its blocks are repainted white. An offset with no
    /// extent is `MissingExtent`.
    pub fn del_extent(&mut self, offset: u64) -> (r: Result<(), FragViewError>)
        requires
            old(self).well_formed(),
        ensures
            final(self).well_formed(),
            match r {
                Ok(_) => bg_del_result(old(self)@, offset) == Ok::<BgView, FragViewError>(
                    final(self)@,
                ),
                Err(e) => bg_del_result(old(self)@, offset) == Err::<BgView, FragViewError>(e),
            },
            match r {
                Ok(_) => {
                    &&& find_ext(old(self).extents@, offset) is Some
                    &&& final(self).extents@ == del_ext_seq(old(self).extents@, offset)
                    &&& final(self).img@ == painted(
                        old(self).img@,
                        (offset - old(self).offset) as int / crate::BLOCK as int,
                        find_ext(old(self).extents@, offset)->Some_0 as int
                            / crate::BLOCK as int,
                        Color::White,
                    )
                    &&& final(self).dump_count == next_dump_count(
                        old(self).dump,
                        old(self).dump_count,
                    )
                    &&& final(self).offset == old(self).offset
                    &&& final(self).len == old(self).len
                    &&& final(self).has_data == old(self).has_data
                    &&& final(self).has_meta == old(self).has_meta
                    &&& final(self).dump == old(self).dump
                    &&& final(self).next_extent_color == old(self).next_extent_color
                },
                Err(e) => {
                    &&& find_ext(old(self).extents@, offset) is None
                    &&& *final(self) == *old(self)
                    &&& e == FragViewError::MissingExtent(offset, old(self).offset)
                },
            },
    {
        let ghost old_exts = self.extents@;
        let mut idx: usize = 0;
        while idx < self.extents.len() && self.extents[idx].offset != offset
            invariant
                0 <= idx <= self.extents@.len(),
                self.extents@ == old_exts,
                forall|i: int| 0 <= i < idx ==> (#[trigger] old_exts[i]).offset != offset,
            decreases self.extents@.len() - idx,
        {
            idx = idx + 1;
        }
        proof {
            lemma_del_ext_seq_at(old_exts, offset, idx as int);
        }
        if idx == self.extents.len() {
            return Err(FragViewError::MissingExtent(offset, self.offset));
        }
        let e = self.extents.remove(idx);
        proof {
            let news = self.extents@;
            assert(news == old_exts.remove(idx as int));
            assert(forall|k: int| 0 <= k < idx ==> news[k] == (#[trigger] old_exts[k]));
            assert(forall|k: int|
                idx <= k < news.len() ==> (#[trigger] news[k]) == old_exts[k + 1]);
            assert(extents_wf(news, self.offset, self.len));
        }
        draw_extent(
            &mut self.img,
            self.offset,
            e.offset,
            e.len,
            crate::bg_dim(self.len),
            Color::White,
        );
        self.count_dump();
        proof {
            assert(self@ =~= bg_del_result(old(self)@, offset)->Ok_0);
        }
        Ok(())
    }

    /// Run the free-space sweep over the extents. For a well-formed
    /// block group the sweep always succeeds: the free runs it finds are
    /// disjoint stretches of the group, so their sum never passes the
    /// group's length.
    pub fn fragmentation(&self) -> (r: Result<BlockGroupFragmentation, FragViewError>)
        requires
            self.well_formed(),
        ensures
            match r {
                Ok(f) => {
                    &&& f.len == self.len
                    &&& f.total_free == free_total(
                        self.extents@,
                        self.offset as int,
                        self.offset + self.len,
                    )
                    &&& f.max_free == free_max(
                        self.extents@,
                        self.offset as int,
                        self.offset + self.len,
                    )
                },
                Err(_) => false,
            },
    {
        let ghost exts = self.extents@;
        let ghost bg_end = self.offset + self.len as int;
        let mut bg_frag = BlockGroupFragmentation::new(self.len);
        let mut last_end_rel: u64 = 0;
        let mut idx: usize = 0;
        proof {
            assert(exts.skip(0) =~= exts);
        }
        while idx < self.extents.len()
            invariant
                self.well_formed(),
                exts == self.extents@,
                bg_end == self.offset + self.len as int,
                0 <= idx <= exts.len(),
                last_end_rel <= self.len,
                bg_frag.len == self.len,
                bg_frag.total_free <= self.len,
                idx == 0 ==> last_end_rel == 0 && bg_frag.total_free == 0,
                idx > 0 ==> bg_frag.total_free <= exts[idx - 1].offset - self.offset
                    && last_end_rel >= exts[idx - 1].offset - self.offset,
                free_total(exts, self.offset as int, bg_end) == bg_frag.total_free + free_total(
                    exts.skip(idx as int),
                    self.offset + last_end_rel,
                    bg_end,
                ),
                free_max(exts, self.offset as int, bg_end) == (if bg_frag.max_free > free_max(
                    exts.skip(idx as int),
                    self.offset + last_end_rel,
                    bg_end,
                ) {
                    bg_frag.max_free as int
                } else {
                    free_max(exts.skip(idx as int), self.offset + last_end_rel, bg_end)
                }),
            decreases exts.len() - idx,
        {
            let e = self.extents[idx];
            let rel = e.offset - self.offset;
            proof {
                assert(exts.skip(idx as int)[0] == exts[idx as int]);
                assert(exts.skip(idx as int).drop_first() =~= exts.skip(idx as int + 1));
            }
            if rel > last_end_rel {
                let free_len = rel - last_end_rel;
                match bg_frag.add_free(free_len) {
                    Ok(_) => {},
                    Err(err) => {
                        return Err(err);
                    },
                }
            }
            last_end_rel = rel + e.len;
            idx = idx + 1;
        }
        proof {
            assert(exts.skip(exts.len() as int) =~= Seq::<Extent>::empty());
        }
        if last_end_rel < self.len {
            let free_len = self.len - last_end_rel;
            match bg_frag.add_free(free_len) {
                Ok(_) => {},
                Err(err) => {
                    return Err(err);
                },
            }
        }
        Ok(bg_frag)
    }

    /// The stable human label `"<KINDS>-<offset>"` used to route output.
    pub fn name(&self) -> (r: String)
        ensures
            r@ == spec_name(self.has_data, self.has_meta, self.offset),
    {
        let mut out = String::new();
        if self.has_data && self.has_meta {
            out.append("Data-Metadata");
        } else if self.has_data {
            out.append("Data");
        } else if self.has_meta {
            out.append("Metadata");
        } else {
            out.append("Empty");
        }
        out.append("-");
        let num = crate::decimal::u64_to_string(self.offset);
        out.append(num.as_str());
        out
    }

    /// Whether this group's picture is emitted: its label names data and
    /// no metadata.
    pub fn qualifies_for_image(&self) -> (r: bool)
        ensures
            r == (self.has_data && !self.has_meta),
    {
        self.has_data && !self.has_meta
    }

    /// Whether this group counts as a data block group for reports.
    pub fn is_data(&self) -> (r: bool)
        ensures
            r == self.has_data,
    {
        self.has_data
    }
}

/// Inserting at the first position whose offset is not below `o` is what
/// the recursive map-insert means.
proof fn lemma_ins_ext_seq_at(s: Seq<Extent>, o: u64, l: u64, idx: int)
    requires
        0 <= idx <= s.len(),
        forall|i: int| 0 <= i < idx ==> (#[trigger] s[i]).offset < o,
        idx < s.len() ==> s[idx].offset >= o,
    ensures
        (idx < s.len() && s[idx].offset == o) ==> ins_ext_seq(s, o, l) == s.update(
            idx,
            Extent { offset: o, len: l },
        ),
        !(idx < s.len() && s[idx].offset == o) ==> ins_ext_seq(s, o, l) == s.insert(
            idx,
            Extent { offset: o, len: l },
        ),
    decreases s.len(),
{
    let e = Extent { offset: o, len: l };
    if s.len() == 0 {
        assert(ins_ext_seq(s, o, l) =~= s.insert(0, e));
    } else if idx == 0 {
        if s[0].offset == o {
            assert(ins_ext_seq(s, o, l) =~= s.update(0, e));
        } else {
            assert(ins_ext_seq(s, o, l) =~= s.insert(0, e));
        }
    } else {
        let rest = s.drop_first();
        assert forall|i: int| 0 <= i < idx - 1 implies (#[trigger] rest[i]).offset < o by {
            assert(rest[i] == s[i + 1]);
        }
        lemma_ins_ext_seq_at(rest, o, l, idx - 1);
        if idx < s.len() && s[idx].offset == o {
            assert(rest[idx - 1] == s[idx]);
            assert(ins_ext_seq(s, o, l) =~= s.update(idx, e));
        } else {
            assert(ins_ext_seq(s, o, l) =~= s.insert(idx, e));
        }
    }
}

/// Deleting scans to the first matching offset: the recursive map-delete
/// removes exactly that entry, and finds none past a full scan.
proof fn lemma_del_ext_seq_at(s: Seq<Extent>, o: u64, idx: int)
    requires
        0 <= idx <= s.len(),
        forall|i: int| 0 <= i < idx ==> (#[trigger] s[i]).offset != o,
    ensures
        idx == s.len() ==> find_ext(s, o) is None && del_ext_seq(s, o) == s,
        (idx < s.len() && s[idx].offset == o) ==> find_ext(s, o) == Some(s[idx].len)
            && del_ext_seq(s, o) == s.remove(idx),
    decreases s.len(),
{
    if s.len() == 0 {
    } else if idx == 0 {
        if s[0].offset == o {
            assert(del_ext_seq(s, o) =~= s.remove(0));
        }
    } else {
        let rest = s.drop_first();
        assert forall|i: int| 0 <= i < idx - 1 implies (#[trigger] rest[i]).offset != o by {
            assert(rest[i] == s[i + 1]);
        }
        lemma_del_ext_seq_at(rest, o, idx - 1);
        if idx == s.len() {
            assert(del_ext_seq(s, o) =~= s);
        } else if s[idx].offset == o {
            assert(rest[idx - 1] == s[idx]);
            assert(del_ext_seq(s, o) =~= s.remove(idx));
        }
    }
}

} // verus!
