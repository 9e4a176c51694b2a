use fragview::errors::FragViewError;
use fragview::parse::{AllocChange, AllocId, AllocType, ExtentType};

#[test]
fn parse_dump_lines() {
    let dummy_dump_line = "INS BLOCK-GROUP 420 42";
    let ac = AllocChange::from_dump(dummy_dump_line).unwrap();
    assert_eq!(
        ac,
        AllocChange::Insert(
            AllocId {
                alloc_type: AllocType::BlockGroup,
                offset: 420
            },
            42
        )
    );

    let dummy_dump_line = "DEL BLOCK-GROUP 420";
    let ac = AllocChange::from_dump(dummy_dump_line).unwrap();
    assert_eq!(
        ac,
        AllocChange::Delete(AllocId {
            alloc_type: AllocType::BlockGroup,
            offset: 420
        })
    );

    let dummy_dump_line = "INS DATA-EXTENT 420 42";
    let ac = AllocChange::from_dump(dummy_dump_line).unwrap();
    assert_eq!(
        ac,
        AllocChange::Insert(
            AllocId {
                alloc_type: AllocType::Extent(ExtentType::Data),
                offset: 420
            },
            42
        )
    );

    let dummy_dump_line = "DEL DATA-EXTENT 420";
    let ac = AllocChange::from_dump(dummy_dump_line).unwrap();
    assert_eq!(
        ac,
        AllocChange::Delete(AllocId {
            alloc_type: AllocType::Extent(ExtentType::Data),
            offset: 420
        })
    );

    let dummy_dump_line = "INS METADATA-EXTENT 420 42";
    let ac = AllocChange::from_dump(dummy_dump_line).unwrap();
    assert_eq!(
        ac,
        AllocChange::Insert(
            AllocId {
                alloc_type: AllocType::Extent(ExtentType::Metadata),
                offset: 420
            },
            42
        )
    );

    let dummy_dump_line = "DEL METADATA-EXTENT 420";
    let ac = AllocChange::from_dump(dummy_dump_line).unwrap();
    assert_eq!(
        ac,
        AllocChange::Delete(AllocId {
            alloc_type: AllocType::Extent(ExtentType::Metadata),
            offset: 420
        })
    );
}

#[test]
fn parse_unknown_op() {
    let err = AllocChange::from_dump("MOVE BLOCK-GROUP 420 42").unwrap_err();
    assert_eq!(err, FragViewError::Parse(String::from("MOVE")));
}

#[test]
fn parse_unknown_type() {
    let err = AllocChange::from_dump("INS CHUNK 420 42").unwrap_err();
    assert_eq!(err, FragViewError::Parse(String::from("CHUNK")));
}

#[test]
fn parse_bad_offset() {
    let err = AllocChange::from_dump("INS BLOCK-GROUP 4x0 42").unwrap_err();
    assert_eq!(err, FragViewError::Parse(String::from("4x0")));
}

#[test]
fn parse_bad_len() {
    let err = AllocChange::from_dump("INS BLOCK-GROUP 420 4x").unwrap_err();
    assert_eq!(err, FragViewError::Parse(String::from("4x")));
}

#[test]
fn parse_missing_len_on_insert() {
    let err = AllocChange::from_dump("INS BLOCK-GROUP 420").unwrap_err();
    assert_eq!(err, FragViewError::Parse(String::from("INS BLOCK-GROUP 420")));
}

#[test]
fn parse_short_line() {
    let err = AllocChange::from_dump("INS").unwrap_err();
    assert_eq!(err, FragViewError::Parse(String::from("INS")));
}

#[test]
fn parse_stray_len_on_delete_is_ignored() {
    let ac = AllocChange::from_dump("DEL DATA-EXTENT 420 42").unwrap();
    assert_eq!(
        ac,
        AllocChange::Delete(AllocId {
            alloc_type: AllocType::Extent(ExtentType::Data),
            offset: 420
        })
    );
}

#[test]
fn parse_u64_boundaries() {
    let ac = AllocChange::from_dump("DEL BLOCK-GROUP 18446744073709551615").unwrap();
    assert_eq!(
        ac,
        AllocChange::Delete(AllocId {
            alloc_type: AllocType::BlockGroup,
            offset: u64::MAX
        })
    );
    let err = AllocChange::from_dump("DEL BLOCK-GROUP 18446744073709551616").unwrap_err();
    assert_eq!(
        err,
        FragViewError::Parse(String::from("18446744073709551616"))
    );
}

#[test]
fn alloc_type_from_str_reads_the_three_types() {
    assert_eq!(
        AllocType::from_str("BLOCK-GROUP").unwrap(),
        AllocType::BlockGroup
    );
    assert_eq!(
        AllocType::from_str("DATA-EXTENT").unwrap(),
        AllocType::Extent(ExtentType::Data)
    );
    assert_eq!(
        AllocType::from_str("METADATA-EXTENT").unwrap(),
        AllocType::Extent(ExtentType::Metadata)
    );
    assert_eq!(
        AllocType::from_str("block-group").unwrap_err(),
        FragViewError::Parse(String::from("block-group"))
    );
}
