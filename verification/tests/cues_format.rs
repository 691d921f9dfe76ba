use recordplayer::cues::{cues_from_list, decode_cues, encode_cues};

#[test]
fn no_cue_set_is_stored_as_null() {
    assert_eq!(encode_cues(&[None; 8]), None);
    assert_eq!(decode_cues(None), [None; 8]);
}

#[test]
fn cues_encode_as_comma_separated_slots() {
    let mut cues = [None; 8];
    cues[0] = Some(0);
    cues[2] = Some(88200);
    assert_eq!(encode_cues(&cues), Some("0,,88200,,,,,".to_string()));
    let mut neg = [None; 8];
    neg[7] = Some(-960);
    assert_eq!(encode_cues(&neg), Some(",,,,,,,-960".to_string()));
}

#[test]
fn cues_round_trip() {
    let mut cues = [None; 8];
    cues[0] = Some(0);
    cues[2] = Some(88200);
    assert_eq!(decode_cues(encode_cues(&cues)), cues);
    let extremes = [Some(i64::MIN), Some(i64::MAX), None, Some(-1), Some(1), None, Some(10), Some(-10)];
    assert_eq!(decode_cues(encode_cues(&extremes)), extremes);
}

#[test]
fn decoding_trims_and_skips_unreadable_fields() {
    let r = decode_cues(Some(" 12 ,\t-5,abc,+7,,- 3,9223372036854775808,1".to_string()));
    assert_eq!(r, [Some(12), Some(-5), None, Some(7), None, None, None, Some(1)]);
}

#[test]
fn decoding_reads_at_most_eight_fields() {
    let r = decode_cues(Some("1,2,3,4,5,6,7,8,9,10".to_string()));
    assert_eq!(r, [Some(1), Some(2), Some(3), Some(4), Some(5), Some(6), Some(7), Some(8)]);
    let short = decode_cues(Some("42".to_string()));
    assert_eq!(short, [Some(42), None, None, None, None, None, None, None]);
    let empty = decode_cues(Some(String::new()));
    assert_eq!(empty, [None; 8]);
    let unicode_space = decode_cues(Some("\u{3000}5\u{a0}".to_string()));
    assert_eq!(unicode_space[0], Some(5));
}

#[test]
fn cue_list_fills_eight_slots() {
    assert_eq!(cues_from_list(&vec![Some(1), None, Some(3)]), [Some(1), None, Some(3), None, None, None, None, None]);
    let long: Vec<Option<i64>> = (0..10).map(Some).collect();
    assert_eq!(cues_from_list(&long), [Some(0), Some(1), Some(2), Some(3), Some(4), Some(5), Some(6), Some(7)]);
    assert_eq!(cues_from_list(&vec![]), [None; 8]);
}
