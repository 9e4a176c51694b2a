use fragview::block_group::BlockGroup;
use fragview::errors::FragViewError;
use fragview::frag::BlockGroupFragmentation;
use fragview::parse::ExtentType;
use fragview::space_info::SpaceInfo;

const K: u64 = 1 << 10;
const M: u64 = 1 << 20;
const G: u64 = 1 << 30;

#[test]
fn ins_extents() {
    let mut si = SpaceInfo::new();
    si.ins_block_group(G, G);
    si.ins_block_group(2 * G, G);
    si.ins_extent(ExtentType::Data, G + K, 4 * K).unwrap();
    si.ins_extent(ExtentType::Data, 2 * G + 10 * K, 256 * M).unwrap();
    assert_eq!(si.block_groups.len(), 2);
    for bg in si.block_groups.iter() {
        assert_eq!(bg.extents.len(), 1);
    }
}

#[test]
fn del_extents() {
    let mut si = SpaceInfo::new();
    si.ins_block_group(G, G);
    si.ins_block_group(2 * G, G);
    si.ins_extent(ExtentType::Data, G + K, 4 * K).unwrap();
    si.ins_extent(ExtentType::Data, G + 10 * K, 256 * M).unwrap();
    si.ins_extent(ExtentType::Data, 2 * G + 10 * K, 256 * M).unwrap();
    assert_eq!(si.block_groups.len(), 2);
    si.del_extent(G + 10 * K).unwrap();
    for bg in si.block_groups.iter() {
        assert_eq!(bg.extents.len(), 1);
    }
}

// various scenarios with missing block group
#[test]
fn test_no_bg() {}

// various scenarios with invalid overlapping block_groups
#[test]
fn test_bg_overlap() {}

// various scenarios with invalid overlapping extents
#[test]
fn test_extent_overlap() {}

#[test]
fn boundary_rejections() {
    let mut bg = BlockGroup::new(G, G, false);
    assert_eq!(
        bg.ins_extent(G - 1, 4 * K).unwrap_err(),
        FragViewError::BeforeStart(G - 1, G)
    );
    assert_eq!(
        bg.ins_extent(G + G - 4 * K, 8 * K).unwrap_err(),
        FragViewError::PastEnd(2 * G + 4 * K, 2 * G)
    );
    assert_eq!(bg.extents.len(), 0);

    let mut si = SpaceInfo::new();
    si.ins_block_group(G, G);
    assert_eq!(
        si.ins_extent(ExtentType::Data, 100, 4 * K).unwrap_err(),
        FragViewError::MissingBg(100)
    );
    assert_eq!(
        si.del_extent(G + 555).unwrap_err(),
        FragViewError::MissingExtent(G + 555, G)
    );
    assert_eq!(si.del_extent(7).unwrap_err(), FragViewError::MissingBg(7));
}

#[test]
fn fragmentation_arithmetic() {
    let mut bg = BlockGroup::new(0, G, false);
    bg.ins_extent(0, 4 * K).unwrap();
    bg.ins_extent(8 * K, 4 * K).unwrap();
    let frag = bg.fragmentation().unwrap();
    assert_eq!(frag.len, G);
    assert_eq!(frag.total_free, G - 8 * K);
    assert_eq!(frag.max_free, G - 12 * K);
    let pct = 100.0 * (1.0 - (frag.max_free as f64) / (frag.total_free as f64));
    assert!(pct > 0.0 && pct < 100.0);

    let mut covered = BlockGroup::new(0, G, false);
    covered.ins_extent(0, G).unwrap();
    let frag = covered.fragmentation().unwrap();
    assert_eq!(frag.total_free, 0);
    assert!(!frag.is_fragmented());
}

#[test]
fn fragmentation_of_empty_group_is_one_run() {
    let bg = BlockGroup::new(G, G, false);
    let frag = bg.fragmentation().unwrap();
    assert_eq!(frag.total_free, G);
    assert_eq!(frag.max_free, G);
    assert!(!frag.is_fragmented());
}

#[test]
fn add_free_rejects_more_free_than_len() {
    let mut frag = BlockGroupFragmentation::new(10);
    assert_eq!(
        frag.add_free(20).unwrap_err(),
        FragViewError::TooMuchFree(20, 10)
    );
}

#[test]
fn stats_emptiness() {
    let mut si = SpaceInfo::new();
    si.ins_block_group(G, G);
    si.ins_extent(ExtentType::Metadata, G + 4 * K, 4 * K).unwrap();
    let (bg_count, sample) = si.stats_sample().unwrap();
    assert_eq!(bg_count, 1);
    assert_eq!(sample.len(), 0);
}

#[test]
fn stats_counts_fragmented_data_groups() {
    let mut si = SpaceInfo::new();
    si.ins_block_group(G, G);
    si.ins_extent(ExtentType::Data, G, 4 * K).unwrap();
    si.ins_extent(ExtentType::Data, G + 8 * K, 4 * K).unwrap();
    si.ins_block_group(2 * G, G);
    si.ins_extent(ExtentType::Data, 2 * G, G).unwrap();
    let (bg_count, sample) = si.stats_sample().unwrap();
    assert_eq!(bg_count, 2);
    assert_eq!(sample.len(), 1);
    assert_eq!(sample[0].total_free, G - 8 * K);
    assert_eq!(sample[0].max_free, G - 12 * K);
}

#[test]
fn raw_entries_cover_data_groups() {
    let mut si = SpaceInfo::new();
    si.ins_block_group(G, G);
    si.ins_extent(ExtentType::Data, G, 4 * K).unwrap();
    si.ins_block_group(2 * G, G);
    si.ins_extent(ExtentType::Metadata, 2 * G, 4 * K).unwrap();
    let entries = si.raw_entries().unwrap();
    assert_eq!(entries.len(), 1);
    assert_eq!(entries[0].0, G);
    assert_eq!(entries[0].1.total_free, G - 4 * K);
}

#[test]
fn replay_a_whole_dump() {
    let mut si = SpaceInfo::new();
    let lines: Vec<String> = vec![
        String::from("INS BLOCK-GROUP 1073741824 1073741824"),
        String::from(""),
        String::from("INS DATA-EXTENT 1073745920 4096"),
        String::from("DEL DATA-EXTENT 1073745920"),
    ];
    si.handle_lines(&lines).unwrap();
    assert_eq!(si.block_groups.len(), 1);
    assert_eq!(si.block_groups[0].extents.len(), 0);
    assert!(si.block_groups[0].has_data);
}

#[test]
fn replay_stops_at_first_bad_line() {
    let mut si = SpaceInfo::new();
    let lines: Vec<String> = vec![
        String::from("INS BLOCK-GROUP 0 1073741824"),
        String::from("INS JUNK-EXTENT 0 4096"),
        String::from("INS BLOCK-GROUP 1073741824 1073741824"),
    ];
    let err = si.handle_lines(&lines).unwrap_err();
    assert_eq!(err, FragViewError::Parse(String::from("JUNK-EXTENT")));
    assert_eq!(si.block_groups.len(), 1);
}

#[test]
fn replay_stops_at_first_rejected_event() {
    let mut si = SpaceInfo::new();
    let lines: Vec<String> = vec![
        String::from("INS BLOCK-GROUP 0 4096"),
        String::from("INS DATA-EXTENT 0 8192"),
        String::from("INS BLOCK-GROUP 4096 4096"),
    ];
    let err = si.handle_lines(&lines).unwrap_err();
    assert_eq!(err, FragViewError::PastEnd(8192, 4096));
    assert_eq!(si.block_groups.len(), 1);
    assert_eq!(si.block_groups[0].extents.len(), 0);
}

#[test]
fn block_group_names() {
    let mut si = SpaceInfo::new();
    si.ins_block_group(420, G);
    assert_eq!(si.block_groups[0].name(), "Empty-420");
    si.ins_extent(ExtentType::Data, 420, 4 * K).unwrap();
    assert_eq!(si.block_groups[0].name(), "Data-420");
    si.ins_extent(ExtentType::Metadata, 424 + 4 * K - 4, 4 * K).unwrap();
    assert_eq!(si.block_groups[0].name(), "Data-Metadata-420");

    let mut meta_only = SpaceInfo::new();
    meta_only.ins_block_group(0, G);
    meta_only.ins_extent(ExtentType::Metadata, 0, 4 * K).unwrap();
    assert_eq!(meta_only.block_groups[0].name(), "Metadata-0");
    assert!(!meta_only.block_groups[0].qualifies_for_image());
    assert!(si.block_groups[0].is_data());
    assert!(!si.block_groups[0].qualifies_for_image());
}

#[test]
fn bg_replacement_on_same_key() {
    let mut si = SpaceInfo::new();
    si.ins_block_group(G, G);
    si.ins_extent(ExtentType::Data, G, 4 * K).unwrap();
    si.ins_block_group(G, 2 * G);
    assert_eq!(si.block_groups.len(), 1);
    assert_eq!(si.block_groups[0].extents.len(), 0);
    assert_eq!(si.block_groups[0].len, 2 * G);
}
