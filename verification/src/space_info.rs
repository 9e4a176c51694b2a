//! The top-level model: an ordered map of block groups keyed by start
//! offset (kept as a vector sorted by that key), the routing of extent
//! events to the owning group by predecessor lookup, and the driver that
//! replays a dump line by line.

use vstd::prelude::*;
use crate::block_group::{
    bg_del_result, bg_ins_result, bg_new_view, BgView, BlockGroup, free_max, free_total,
};
use crate::errors::FragViewError;
use crate::frag::BlockGroupFragmentation;
use crate::parse::{spec_parse_line, AllocChange, AllocId, AllocType, ExtentType, ParsedLine};

verus! {

/// Block-group start offsets strictly increase along the vector.
pub open spec fn bgs_sorted(s: Seq<BgView>) -> bool {
    forall|i: int, j: int|
        0 <= i < j < s.len() ==> (#[trigger] s[i]).offset < (#[trigger] s[j]).offset
}

/// The map after inserting a fresh block group at `o`: ordered-map
/// semantics, so a group already keyed `o` is replaced.
pub open spec fn si_ins_bg(s: Seq<BgView>, o: u64, l: u64, dump: bool) -> Seq<BgView>
    decreases s.len(),
{
    if s.len() == 0 {
        seq![bg_new_view(o, l, dump)]
    } else if o < s[0].offset {
        seq![bg_new_view(o, l, dump)] + s
    } else if o == s[0].offset {
        seq![bg_new_view(o, l, dump)] + s.drop_first()
    } else {
        seq![s[0]] + si_ins_bg(s.drop_first(), o, l, dump)
    }
}

/// The map after deleting the block group keyed exactly `o`; unchanged
/// if none is.
pub open spec fn si_del_bg(s: Seq<BgView>, o: u64) -> Seq<BgView>
    decreases s.len(),
{
    if s.len() == 0 {
        s
    } else if s[0].offset == o {
        s.drop_first()
    } else {
        seq![s[0]] + si_del_bg(s.drop_first(), o)
    }
}

/// Predecessor lookup: the index of the block group with the greatest
/// start offset at or below `o`.
pub open spec fn find_bg(s: Seq<BgView>, o: u64) -> Option<int>
    decreases s.len(),
{
    if s.len() == 0 {
        None
    } else if s.last().offset <= o {
        Some(s.len() - 1)
    } else {
        find_bg(s.drop_last(), o)
    }
}

/// A block group after one extent kind has been observed in it.
pub open spec fn record_kind(v: BgView, k: ExtentType) -> BgView {
    BgView {
        has_data: v.has_data || k == ExtentType::Data,
        has_meta: v.has_meta || k == ExtentType::Metadata,
        ..v
    }
}

/// Routing an extent insert: the predecessor group takes the extent and,
/// on success, records the extent's kind.
pub open spec fn si_ins_ext(s: Seq<BgView>, k: ExtentType, o: u64, l: u64) -> Result<
    Seq<BgView>,
    FragViewError,
> {
    match find_bg(s, o) {
        None => Err(FragViewError::MissingBg(o)),
        Some(i) => match bg_ins_result(s[i], o, l) {
            Err(e) => Err(e),
            Ok(v) => Ok(s.update(i, record_kind(v, k))),
        },
    }
}

/// Routing an extent delete to the predecessor group.
pub open spec fn si_del_ext(s: Seq<BgView>, o: u64) -> Result<Seq<BgView>, FragViewError> {
    match find_bg(s, o) {
        None => Err(FragViewError::MissingBg(o)),
        Some(i) => match bg_del_result(s[i], o) {
            Err(e) => Err(e),
            Ok(v) => Ok(s.update(i, v)),
        },
    }
}

/// The dispatch table for one event. The extent-kind tag carried by a
/// delete is ignored: identity is the kind family and the offset.
pub open spec fn si_apply(s: Seq<BgView>, dump: bool, ac: AllocChange) -> Result<
    Seq<BgView>,
    FragViewError,
> {
    match ac {
        AllocChange::Insert(AllocId { alloc_type, offset }, len) => match alloc_type {
            AllocType::BlockGroup => Ok(si_ins_bg(s, offset, len, dump)),
            AllocType::Extent(k) => si_ins_ext(s, k, offset, len),
        },
        AllocChange::Delete(AllocId { alloc_type, offset }) => match alloc_type {
            AllocType::BlockGroup => Ok(si_del_bg(s, offset)),
            AllocType::Extent(_) => si_del_ext(s, offset),
        },
    }
}

/// How a replay of a whole dump ends: cleanly, on a token that does not
/// parse, or on an event the model rejects. The carried map is the state
/// at that point; nothing after the first failure is applied.
pub enum ReplayRes {
    Done(Seq<BgView>),
    Bad(Seq<BgView>, Seq<char>),
    Fail(Seq<BgView>, FragViewError),
}

/// Replaying the dump: empty lines are skipped, every other line is
/// parsed and applied in order, and the first failure stops the run.
pub open spec fn replay_lines(s: Seq<BgView>, dump: bool, lines: Seq<Seq<char>>) -> ReplayRes
    decreases lines.len(),
{
    if lines.len() == 0 {
        ReplayRes::Done(s)
    } else if lines[0].len() == 0 {
        replay_lines(s, dump, lines.drop_first())
    } else {
        match spec_parse_line(lines[0]) {
            ParsedLine::BadToken(t) => ReplayRes::Bad(s, t),
            ParsedLine::Change(ac) => match si_apply(s, dump, ac) {
                Err(e) => ReplayRes::Fail(s, e),
                Ok(s2) => replay_lines(s2, dump, lines.drop_first()),
            },
        }
    }
}

/// The whole allocation model: every block group, keyed by start offset.
pub struct SpaceInfo {
    /// The block groups, sorted by start offset (the ordered map).
    pub block_groups: Vec<BlockGroup>,
    /// Whether per-change snapshots are recorded.
    pub dump: bool,
}

impl View for SpaceInfo {
    type V = Seq<BgView>;

    open spec fn view(&self) -> Seq<BgView> {
        self.block_groups@.map_values(|bg: BlockGroup| bg@)
    }
}

impl SpaceInfo {
    /// Every group is internally consistent and the keys are strictly
    /// sorted.
    pub open spec fn well_formed(&self) -> bool {
        &&& forall|i: int|
            0 <= i < self.block_groups@.len() ==> (
            #[trigger] self.block_groups@[i]).well_formed()
        &&& bgs_sorted(self@)
    }

    /// An empty model.
    pub fn new() -> (r: SpaceInfo)
        ensures
            r.well_formed(),
            r@ == Seq::<BgView>::empty(),
            !r.dump,
    {
        let r = SpaceInfo { block_groups: Vec::new(), dump: false };
        proof {
            assert(r@ =~= Seq::<BgView>::empty());
        }
        r
    }

    /// Insert a fresh, empty block group at `offset`, replacing any
    /// group already keyed there.
    pub fn ins_block_group(&mut self, offset: u64, len: u64)
        requires
            old(self).well_formed(),
        ensures
            final(self).well_formed(),
            final(self)@ == si_ins_bg(old(self)@, offset, len, old(self).dump),
            final(self).dump == old(self).dump,
    {
        let ghost old_view = self@;
        let mut idx: usize = 0;
        while idx < self.block_groups.len() && self.block_groups[idx].offset < offset
            invariant
                0 <= idx <= self.block_groups@.len(),
                self@ == old_view,
                *self == *old(self),
                forall|i: int| 0 <= i < idx ==> (#[trigger] old_view[i]).offset < offset,
            decreases self.block_groups@.len() - idx,
        {
            idx = idx + 1;
        }
        let b = BlockGroup::new(offset, len, self.dump);
        proof {
            lemma_si_ins_at(old_view, offset, len, old(self).dump, idx as int);
        }
        if idx < self.block_groups.len() && self.block_groups[idx].offset == offset {
            self.block_groups.set(idx, b);
            proof {
                assert(self@ =~= old_view.update(idx as int, b@));
            }
        } else {
            self.block_groups.insert(idx, b);
            proof {
                assert(self@ =~= old_view.insert(idx as int, b@));
            }
        }
        proof {
            let news = self@;
            assert forall|i: int, j: int|
                0 <= i < j < news.len() implies (#[trigger] news[i]).offset < (
            #[trigger] news[j]).offset by {
                if idx < old_view.len() && old_view[idx as int].offset == offset {
                } else {
                    assert(forall|k: int|
                        0 <= k < idx ==> news[k] == (#[trigger] old_view[k]));
                    assert(forall|k: int|
                        idx < k < news.len() ==> (#[trigger] news[k]) == old_view[k - 1]);
                }
            }
        }
    }

    /// Remove the block group keyed exactly `offset`; silent if absent.
    pub fn del_block_group(&mut self, offset: u64)
        requires
            old(self).well_formed(),
        ensures
            final(self).well_formed(),
            final(self)@ == si_del_bg(old(self)@, offset),
            final(self).dump == old(self).dump,
    {
        let ghost old_view = self@;
        let mut idx: usize = 0;
        while idx < self.block_groups.len() && self.block_groups[idx].offset != offset
            invariant
                0 <= idx <= self.block_groups@.len(),
                self@ == old_view,
                *self == *old(self),
                forall|i: int| 0 <= i < idx ==> (#[trigger] old_view[i]).offset != offset,
            decreases self.block_groups@.len() - idx,
        {
            idx = idx + 1;
        }
        proof {
            lemma_si_del_at(old_view, offset, idx as int);
        }
        if idx == self.block_groups.len() {
            return ;
        }
        self.block_groups.remove(idx);
        proof {
            assert(self@ =~= old_view.remove(idx as int));
            let news = self@;
            assert(forall|k: int| 0 <= k < idx ==> news[k] == (#[trigger] old_view[k]));
            assert(forall|k: int|
                idx <= k < news.len() ==> (#[trigger] news[k]) == old_view[k + 1]);
        }
    }

    /// Predecessor lookup: the index of the block group owning byte
    /// offset `offset`, or `MissingBg` when no group starts at or below
    /// it.
    pub fn find_block_group(&self, offset: u64) -> (r: Result<usize, FragViewError>)
        ensures
            match r {
                Ok(i) => find_bg(self@, offset) == Some(i as int) && i < self.block_groups@.len(),
                Err(e) => find_bg(self@, offset) is None && e == FragViewError::MissingBg(offset),
            },
    {
        let mut idx: usize = self.block_groups.len();
        proof {
            assert(self@.take(idx as int) =~= self@);
        }
        while idx > 0
            invariant
                0 <= idx <= self.block_groups@.len(),
                find_bg(self@, offset) == find_bg(self@.take(idx as int), offset),
            decreases idx,
        {
            if self.block_groups[idx - 1].offset <= offset {
                proof {
                    let pre = self@.take(idx as int);
                    assert(pre.last() == self@[idx - 1]);
                }
                return Ok(idx - 1);
            }
            proof {
                let pre = self@.take(idx as int);
                assert(pre.last() == self@[idx - 1]);
                assert(pre.drop_last() =~= self@.take(idx - 1));
            }
            idx = idx - 1;
        }
        Err(FragViewError::MissingBg(offset))
    }

    /// Route an extent insert to its owning block group and record the
    /// extent's kind there on success.
    pub fn ins_extent(&mut self, extent_type: ExtentType, offset: u64, len: u64) -> (r: Result<
        (),
        FragViewError,
    >)
        requires
            old(self).well_formed(),
        ensures
            final(self).well_formed(),
            final(self).dump == old(self).dump,
            match r {
                Ok(_) => si_ins_ext(old(self)@, extent_type, offset, len) == Ok::<
                    Seq<BgView>,
                    FragViewError,
                >(final(self)@),
                Err(e) => si_ins_ext(old(self)@, extent_type, offset, len) == Err::<
                    Seq<BgView>,
                    FragViewError,
                >(e) && final(self)@ == old(self)@,
            },
    {
        let ghost old_view = self@;
        let idx = match self.find_block_group(offset) {
            Ok(i) => i,
            Err(e) => {
                return Err(e);
            },
        };
        let mut bg = self.block_groups.remove(idx);
        proof {
            assert(old_view[idx as int] == bg@);
        }
        let res = bg.ins_extent(offset, len);
        match res {
            Ok(_) => {
                match extent_type {
                    ExtentType::Data => {
                        bg.has_data = true;
                    },
                    ExtentType::Metadata => {
                        bg.has_meta = true;
                    },
                }
                self.block_groups.insert(idx, bg);
                proof {
                    let target = si_ins_ext(old_view, extent_type, offset, len)->Ok_0;
                    assert(bg@ =~= record_kind(
                        bg_ins_result(old_view[idx as int], offset, len)->Ok_0,
                        extent_type,
                    ));
                    assert(self@ =~= old_view.update(idx as int, bg@));
                    assert(self@ =~= target);
                    let news = self@;
                    assert(forall|k: int|
                        0 <= k < news.len() && k != idx ==> (#[trigger] news[k])
                            == old_view[k]);
                    assert(news[idx as int].offset == old_view[idx as int].offset);
                }
                Ok(())
            },
            Err(e) => {
                self.block_groups.insert(idx, bg);
                proof {
                    assert(self@ =~= old_view);
                }
                Err(e)
            },
        }
    }

    /// Route an extent delete to its owning block group.
    pub fn del_extent(&mut self, offset: u64) -> (r: Result<(), FragViewError>)
        requires
            old(self).well_formed(),
        ensures
            final(self).well_formed(),
            final(self).dump == old(self).dump,
            match r {
                Ok(_) => si_del_ext(old(self)@, offset) == Ok::<Seq<BgView>, FragViewError>(
                    final(self)@,
                ),
                Err(e) => si_del_ext(old(self)@, offset) == Err::<Seq<BgView>, FragViewError>(e)
                    && final(self)@ == old(self)@,
            },
    {
        let ghost old_view = self@;
        let idx = match self.find_block_group(offset) {
            Ok(i) => i,
            Err(e) => {
                return Err(e);
            },
        };
        let mut bg = self.block_groups.remove(idx);
        proof {
            assert(old_view[idx as int] == bg@);
        }
        let res = bg.del_extent(offset);
        match res {
            Ok(_) => {
                self.block_groups.insert(idx, bg);
                proof {
                    assert(self@ =~= old_view.update(idx as int, bg@));
                    assert(self@ =~= si_del_ext(old_view, offset)->Ok_0);
                    let news = self@;
                    assert(forall|k: int|
                        0 <= k < news.len() && k != idx ==> (#[trigger] news[k])
                            == old_view[k]);
                    assert(news[idx as int].offset == old_view[idx as int].offset);
                }
                Ok(())
            },
            Err(e) => {
                self.block_groups.insert(idx, bg);
                proof {
                    assert(self@ =~= old_view);
                }
                Err(e)
            },
        }
    }

    /// Apply one parsed event to the model.
    pub fn handle_alloc_change(&mut self, alloc_change: AllocChange) -> (r: Result<
        (),
        FragViewError,
    >)
        requires
            old(self).well_formed(),
        ensures
            final(self).well_formed(),
            final(self).dump == old(self).dump,
            match r {
                Ok(_) => si_apply(old(self)@, old(self).dump, alloc_change) == Ok::<
                    Seq<BgView>,
                    FragViewError,
                >(final(self)@),
                Err(e) => si_apply(old(self)@, old(self).dump, alloc_change) == Err::<
                    Seq<BgView>,
                    FragViewError,
                >(e) && final(self)@ == old(self)@,
            },
    {
        match alloc_change {
            AllocChange::Insert(AllocId { alloc_type, offset }, len) => match alloc_type {
                AllocType::BlockGroup => {
                    self.ins_block_group(offset, len);
                    Ok(())
                },
                AllocType::Extent(extent_type) => self.ins_extent(extent_type, offset, len),
            },
            AllocChange::Delete(AllocId { alloc_type, offset }) => match alloc_type {
                AllocType::BlockGroup => {
                    self.del_block_group(offset);
                    Ok(())
                },
                AllocType::Extent(_) => self.del_extent(offset),
            },
        }
    }

    /// The driver: replay a whole dump, one line per event, in order.
    /// Empty lines are skipped; the first parse error or rejected event
    /// aborts the run with nothing further applied.
    pub fn handle_lines(&mut self, lines: &Vec<String>) -> (r: Result<(), FragViewError>)
        requires
            old(self).well_formed(),
        ensures
            final(self).well_formed(),
            final(self).dump == old(self).dump,
            match r {
                Ok(_) => replay_lines(
                    old(self)@,
                    old(self).dump,
                    lines@.map_values(|l: String| l@),
                ) == ReplayRes::Done(final(self)@),
                Err(e) => match e {
                    FragViewError::Parse(t) => replay_lines(
                        old(self)@,
                        old(self).dump,
                        lines@.map_values(|l: String| l@),
                    ) == ReplayRes::Bad(final(self)@, t@),
                    _ => replay_lines(
                        old(self)@,
                        old(self).dump,
                        lines@.map_values(|l: String| l@),
                    ) == ReplayRes::Fail(final(self)@, e),
                },
            },
    {
        let ghost lviews = lines@.map_values(|l: String| l@);
        let mut i: usize = 0;
        proof {
            assert(lviews.skip(0) =~= lviews);
        }
        while i < lines.len()
            invariant
                old(self).well_formed(),
                self.well_formed(),
                self.dump == old(self).dump,
                0 <= i <= lines@.len(),
                lviews == lines@.map_values(|l: String| l@),
                replay_lines(old(self)@, old(self).dump, lviews) == replay_lines(
                    self@,
                    self.dump,
                    lviews.skip(i as int),
                ),
            decreases lines@.len() - i,
        {
            let line = &lines[i];
            proof {
                assert(lviews.skip(i as int)[0] == lviews[i as int]);
                assert(lviews[i as int] == lines@[i as int]@);
                assert(lviews.skip(i as int).drop_first() =~= lviews.skip(i as int + 1));
            }
            if !line.as_str().is_empty() {
                let ac = match AllocChange::from_dump(line.as_str()) {
                    Ok(ac) => ac,
                    Err(e) => {
                        return Err(e);
                    },
                };
                match self.handle_alloc_change(ac) {
                    Ok(_) => {},
                    Err(e) => {
                        return Err(e);
                    },
                }
            }
            i = i + 1;
        }
        proof {
            assert(lviews.skip(lines@.len() as int) =~= Seq::<Seq<char>>::empty());
        }
        Ok(())
    }

    /// The stats report's raw material: the total number of block groups
    /// and the free-space summary of every data block group whose
    /// fragmentation percentage is positive, in key order.
    pub fn stats_sample(&self) -> (r: Result<(usize, Vec<BlockGroupFragmentation>), FragViewError>)
        requires
            self.well_formed(),
        ensures
            match r {
                Ok(p) => p.0 == self.block_groups@.len() && p.1@ == stats_sample_spec(self@),
                Err(_) => false,
            },
    {
        let mut sample: Vec<BlockGroupFragmentation> = Vec::new();
        let mut i: usize = 0;
        proof {
            assert(self@.skip(0) =~= self@);
        }
        while i < self.block_groups.len()
            invariant
                self.well_formed(),
                0 <= i <= self.block_groups@.len(),
                stats_sample_spec(self@) == sample@ + stats_sample_spec(self@.skip(i as int)),
            decreases self.block_groups@.len() - i,
        {
            let bg = &self.block_groups[i];
            proof {
                assert(self@.skip(i as int)[0] == self@[i as int]);
                assert(self@.skip(i as int).drop_first() =~= self@.skip(i as int + 1));
                assert(self@[i as int] == bg@);
            }
            if bg.is_data() {
                let frag = match bg.fragmentation() {
                    Ok(f) => f,
                    Err(e) => {
                        return Err(e);
                    },
                };
                if frag.is_fragmented() {
                    sample.push(frag);
                }
            }
            proof {
                assert(stats_sample_spec(self@) =~= sample@ + stats_sample_spec(
                    self@.skip(i as int + 1),
                ));
            }
            i = i + 1;
        }
        proof {
            assert(self@.skip(self.block_groups@.len() as int) =~= Seq::<BgView>::empty());
            assert(sample@ =~= stats_sample_spec(self@));
        }
        Ok((self.block_groups.len(), sample))
    }

    /// The raw report's material: the start offset and free-space
    /// summary of every data block group, in key order.
    pub fn raw_entries(&self) -> (r: Result<Vec<(u64, BlockGroupFragmentation)>, FragViewError>)
        requires
            self.well_formed(),
        ensures
            match r {
                Ok(v) => v@ == raw_entries_spec(self@),
                Err(_) => false,
            },
    {
        let mut out: Vec<(u64, BlockGroupFragmentation)> = Vec::new();
        let mut i: usize = 0;
        proof {
            assert(self@.skip(0) =~= self@);
        }
        while i < self.block_groups.len()
            invariant
                self.well_formed(),
                0 <= i <= self.block_groups@.len(),
                raw_entries_spec(self@) == out@ + raw_entries_spec(self@.skip(i as int)),
            decreases self.block_groups@.len() - i,
        {
            let bg = &self.block_groups[i];
            proof {
                assert(self@.skip(i as int)[0] == self@[i as int]);
                assert(self@.skip(i as int).drop_first() =~= self@.skip(i as int + 1));
                assert(self@[i as int] == bg@);
            }
            if bg.is_data() {
                let frag = match bg.fragmentation() {
                    Ok(f) => f,
                    Err(e) => {
                        return Err(e);
                    },
                };
                out.push((bg.offset, frag));
            }
            proof {
                assert(raw_entries_spec(self@) =~= out@ + raw_entries_spec(
                    self@.skip(i as int + 1),
                ));
            }
            i = i + 1;
        }
        proof {
            assert(self@.skip(self.block_groups@.len() as int) =~= Seq::<BgView>::empty());
            assert(out@ =~= raw_entries_spec(self@));
        }
        Ok(out)
    }
}

/// The free-space summary of one block group, as a value.
pub open spec fn spec_frag_of(v: BgView) -> BlockGroupFragmentation {
    BlockGroupFragmentation {
        len: v.len,
        total_free: free_total(v.extents, v.offset as int, v.offset + v.len) as u64,
        max_free: free_max(v.extents, v.offset as int, v.offset + v.len) as u64,
    }
}

/// Whether a group's fragmentation percentage is positive.
pub open spec fn frag_positive(v: BgView) -> bool {
    spec_frag_of(v).total_free > 0 && spec_frag_of(v).max_free < spec_frag_of(v).total_free
}

/// The summaries collected for the stats report.
pub open spec fn stats_sample_spec(s: Seq<BgView>) -> Seq<BlockGroupFragmentation>
    decreases s.len(),
{
    if s.len() == 0 {
        Seq::empty()
    } else {
        (if s[0].has_data && frag_positive(s[0]) {
            seq![spec_frag_of(s[0])]
        } else {
            Seq::empty()
        }) + stats_sample_spec(s.drop_first())
    }
}

/// The entries printed by the raw report.
pub open spec fn raw_entries_spec(s: Seq<BgView>) -> Seq<(u64, BlockGroupFragmentation)>
    decreases s.len(),
{
    if s.len() == 0 {
        Seq::empty()
    } else {
        (if s[0].has_data {
            seq![(s[0].offset, spec_frag_of(s[0]))]
        } else {
            Seq::empty()
        }) + raw_entries_spec(s.drop_first())
    }
}

/// Inserting at the first position whose key is not below `o` is what
/// the recursive map-insert means.
proof fn lemma_si_ins_at(s: Seq<BgView>, o: u64, l: u64, dump: bool, idx: int)
    requires
        0 <= idx <= s.len(),
        forall|i: int| 0 <= i < idx ==> (#[trigger] s[i]).offset < o,
        idx < s.len() ==> s[idx].offset >= o,
    ensures
        (idx < s.len() && s[idx].offset == o) ==> si_ins_bg(s, o, l, dump) == s.update(
            idx,
            bg_new_view(o, l, dump),
        ),
        !(idx < s.len() && s[idx].offset == o) ==> si_ins_bg(s, o, l, dump) == s.insert(
            idx,
            bg_new_view(o, l, dump),
        ),
    decreases s.len(),
{
    let e = bg_new_view(o, l, dump);
    if s.len() == 0 {
        assert(si_ins_bg(s, o, l, dump) =~= s.insert(0, e));
    } else if idx == 0 {
        if s[0].offset == o {
            assert(si_ins_bg(s, o, l, dump) =~= s.update(0, e));
        } else {
            assert(si_ins_bg(s, o, l, dump) =~= s.insert(0, e));
        }
    } else {
        let rest = s.drop_first();
        assert forall|i: int| 0 <= i < idx - 1 implies (#[trigger] rest[i]).offset < o by {
            assert(rest[i] == s[i + 1]);
        }
        lemma_si_ins_at(rest, o, l, dump, idx - 1);
        if idx < s.len() && s[idx].offset == o {
            assert(rest[idx - 1] == s[idx]);
            assert(si_ins_bg(s, o, l, dump) =~= s.update(idx, e));
        } else {
            assert(si_ins_bg(s, o, l, dump) =~= s.insert(idx, e));
        }
    }
}

/// Deleting scans to the exact key: the recursive map-delete removes
/// exactly that entry, and nothing past a full scan.
proof fn lemma_si_del_at(s: Seq<BgView>, o: u64, idx: int)
    requires
        0 <= idx <= s.len(),
        forall|i: int| 0 <= i < idx ==> (#[trigger] s[i]).offset != o,
    ensures
        idx == s.len() ==> si_del_bg(s, o) == s,
        (idx < s.len() && s[idx].offset == o) ==> si_del_bg(s, o) == s.remove(idx),
    decreases s.len(),
{
    if s.len() == 0 {
    } else if idx == 0 {
        if s[0].offset == o {
            assert(si_del_bg(s, o) =~= s.remove(0));
        }
    } else {
        let rest = s.drop_first();
        assert forall|i: int| 0 <= i < idx - 1 implies (#[trigger] rest[i]).offset != o by {
            assert(rest[i] == s[i + 1]);
        }
        lemma_si_del_at(rest, o, idx - 1);
        if idx == s.len() {
            assert(si_del_bg(s, o) =~= s);
        } else if s[idx].offset == o {
            assert(rest[idx - 1] == s[idx]);
            assert(si_del_bg(s, o) =~= s.remove(idx));
        }
    }
}

} // verus!
