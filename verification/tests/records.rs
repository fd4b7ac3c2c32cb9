use permguard_control_plane::events::store::{records_between, RangeError};
use permguard_control_plane::records::segment_records;

fn lines(text: &[&str]) -> Vec<String> {
    text.iter().map(|line| line.to_string()).collect()
}

#[test]
fn a_segment_is_read_from_its_position_up_to_the_limit() {
    let segment = lines(&["{\"seq\":1}", "", "{\"seq\":2}", "{\"seq\":3}", "{\"seq\":4}"]);
    let (records, seqs, offset) = segment_records(&segment, 0, 2).expect("it reads");
    assert_eq!(seqs, vec![Some(1), Some(2)]);
    assert_eq!(records.len(), 2);
    assert_eq!(records[1]["seq"].as_u64(), Some(2));
    assert_eq!(offset, 3, "the empty line is counted in the offset and not returned");

    let (_, seqs, offset) = segment_records(&segment, offset, 10).expect("it reads on");
    assert_eq!(seqs, vec![Some(3), Some(4)]);
    assert_eq!(offset, 5);
}

#[test]
fn a_position_past_the_end_reads_nothing_and_keeps_its_offset() {
    let segment = lines(&["{\"seq\":1}"]);
    let (records, seqs, offset) = segment_records(&segment, 7, 10).expect("it reads");
    assert!(records.is_empty() && seqs.is_empty());
    assert_eq!(offset, 7);
    let (_, seqs, offset) = segment_records(&segment, 0, 0).expect("a zero limit reads nothing");
    assert!(seqs.is_empty());
    assert_eq!(offset, 0);
}

#[test]
fn a_record_without_a_sequence_is_returned_and_a_broken_line_is_named() {
    let segment = lines(&["{\"kind\":\"x\"}", "not json", "{\"seq\":3}"]);
    assert_eq!(segment_records(&segment, 0, 1).map(|(_, seqs, offset)| (seqs, offset)), Ok((vec![None], 1)));
    assert_eq!(segment_records(&segment, 0, 10).map(|(_, seqs, offset)| (seqs, offset)), Err(1));
    assert_eq!(segment_records(&segment, 2, 10).map(|(_, seqs, offset)| (seqs, offset)), Ok((vec![Some(3)], 3)));
}

#[test]
fn a_producer_range_reads_back_in_order_each_record_at_its_sequence() {
    let one = lines(&["{\"seq\":1}", "{\"seq\":2}", "", "{\"seq\":3}"]);
    let segments = vec![(1u64, one)];
    let read = records_between(&segments, 2, 3).expect("the range is whole");
    assert_eq!(read.iter().map(|r| r["seq"].as_u64()).collect::<Vec<_>>(), vec![Some(2), Some(3)]);
    assert_eq!(
        records_between(&segments, 2, 4),
        Err(RangeError::Mismatch("the producer range 2..=4 contains 2 records instead of 3".to_owned()))
    );
    let holed = vec![(1u64, lines(&["{\"seq\":1}", "{\"seq\":5}"]))];
    assert_eq!(
        records_between(&holed, 1, 2),
        Err(RangeError::Mismatch("the producer range 1..=2 has no record at sequence 2".to_owned()))
    );
    let broken = vec![(1u64, lines(&["{\"seq\":1}", "oops"]))];
    assert_eq!(records_between(&broken, 1, 2), Err(RangeError::Unreadable { segment: 1, line: 1 }));
}
