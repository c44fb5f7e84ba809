use ddp_classical_fix::descriptor::update_size_field;
use ddp_classical_fix::manifest::rewrite_manifest;
use ddp_classical_fix::patch::fix_cdtext_bin;
use ddp_classical_fix::repair::find_descriptor;
use ddp_classical_fix::repair::plan_repair;

// An 18-byte genre packet whose text part contains "Classical".
fn classical_packet() -> Vec<u8> {
    let mut p = vec![0x87u8];
    p.extend_from_slice(b"Classical");
    p.extend_from_slice(&[0x01u8; 8]);
    assert_eq!(p.len(), 18);
    p
}

// An 18-byte genre packet without "Classical" in it.
fn plain_packet() -> Vec<u8> {
    let mut p = vec![0x87u8];
    p.extend_from_slice(&[0x02u8; 17]);
    assert_eq!(p.len(), 18);
    p
}

fn defective_cdtext() -> Vec<u8> {
    let mut data = classical_packet();
    data.extend_from_slice(&plain_packet());
    data.extend_from_slice(b"XYZ");
    data
}

#[test]
fn removes_second_packet_when_first_is_classical() {
    let data = defective_cdtext();
    let fixed = fix_cdtext_bin(&data).expect("the defect should be detected");
    assert_eq!(fixed.len(), data.len() - 18);
    // everything before the second marker offset is kept ...
    assert_eq!(&fixed[..18], &data[..18]);
    // ... the 18 bytes at the second marker offset are gone, and the rest
    // follows in its old order
    assert_eq!(&fixed[18..], b"XYZ");
}

#[test]
fn no_change_with_fewer_than_two_markers() {
    let mut data = classical_packet();
    data.extend_from_slice(b"trailing data without any marker");
    assert!(fix_cdtext_bin(&data).is_none());
}

#[test]
fn no_change_when_first_window_lacks_classical() {
    let mut data = plain_packet();
    data.extend_from_slice(&classical_packet());
    data.extend_from_slice(b"XYZ");
    assert!(fix_cdtext_bin(&data).is_none());
}

#[test]
fn marker_without_full_packet_after_it_does_not_count() {
    // the second 0x87 sits 5 bytes before the end: no 18-byte window fits
    let mut data = classical_packet();
    data.push(0x87);
    data.extend_from_slice(&[0x03u8; 4]);
    assert!(fix_cdtext_bin(&data).is_none());
}

#[test]
fn empty_input_is_left_alone() {
    let data: Vec<u8> = Vec::new();
    assert!(fix_cdtext_bin(&data).is_none());
}

#[test]
fn second_run_makes_no_changes() {
    let data = defective_cdtext();
    let fixed = fix_cdtext_bin(&data).expect("first run should patch");
    assert!(fix_cdtext_bin(&fixed).is_none());
    let descriptor = b"000021 CDTEXT\n".to_vec();
    let manifest = b"aaaa *CDTEXT.BIN\n".to_vec();
    let plan = plan_repair(&fixed, Some(&descriptor), Some(&manifest), None);
    assert!(plan.new_cdtext.is_none());
    assert!(plan.new_descriptor.is_none());
    assert!(plan.new_manifest.is_none());
}

#[test]
fn descriptor_substitution_pads_to_six_digits() {
    let text = b"012345 CDTEXT".to_vec();
    let out = update_size_field(&text, 54321).expect("the pattern should match");
    assert_eq!(out, b"054321 CDTEXT".to_vec());
}

#[test]
fn descriptor_without_pattern_reports_no_update() {
    let text = b"no size field in here".to_vec();
    assert!(update_size_field(&text, 54321).is_none());
}

#[test]
fn descriptor_substitution_is_global_and_keeps_whitespace() {
    let text = b"a 000036 CDTEXT b\n999999\t\tCDTEXT c".to_vec();
    let out = update_size_field(&text, 42).expect("both occurrences should match");
    assert_eq!(out, b"a 000042 CDTEXT b\n000042\t\tCDTEXT c".to_vec());
}

#[test]
fn descriptor_substitution_widens_large_sizes() {
    let text = b"000036 CDTEXT".to_vec();
    let out = update_size_field(&text, 1234567).expect("the pattern should match");
    assert_eq!(out, b"1234567 CDTEXT".to_vec());
}

#[test]
fn descriptor_seven_digit_run_matches_its_last_six_digits() {
    let text = b"0123456 CDTEXT".to_vec();
    let out = update_size_field(&text, 54321).expect("the trailing six digits should match");
    assert_eq!(out, b"0054321 CDTEXT".to_vec());
}

#[test]
fn descriptor_unchanged_when_size_already_current() {
    let text = b"000036 CDTEXT".to_vec();
    assert!(update_size_field(&text, 36).is_none());
}

#[test]
fn manifest_rewrites_tracked_line_and_keeps_others() {
    let text = b"d41d8cd98f00b204e9800998ecf8427e *CDTEXT.BIN\n0123 *OTHER.TXT\n".to_vec();
    let digest = b"0123456789abcdef0123456789abcdef".to_vec();
    let entries = vec![(b"CDTEXT.BIN".to_vec(), digest.clone())];
    let out = rewrite_manifest(&text, &entries);
    let expected = b"0123456789abcdef0123456789abcdef *CDTEXT.BIN\n0123 *OTHER.TXT\n".to_vec();
    assert_eq!(out, expected);
}

#[test]
fn manifest_first_matching_entry_wins_and_crlf_is_normalized() {
    let text = b"aaaa *CDTEXT.BIN\r\nbbbb *DDPMS\r\ncccc *THIRD\r\n".to_vec();
    let entries = vec![
        (b"CDTEXT.BIN".to_vec(), b"1111".to_vec()),
        (b"DDPMS".to_vec(), b"2222".to_vec()),
    ];
    let out = rewrite_manifest(&text, &entries);
    let expected = b"1111 *CDTEXT.BIN\n2222 *DDPMS\ncccc *THIRD\n".to_vec();
    assert_eq!(out, expected);
}

#[test]
fn manifest_final_line_without_newline_gets_one() {
    let text = b"aaaa *DDPMS".to_vec();
    let entries = vec![(b"DDPMS".to_vec(), b"2222".to_vec())];
    let out = rewrite_manifest(&text, &entries);
    assert_eq!(out, b"2222 *DDPMS\n".to_vec());
}

#[test]
fn empty_manifest_stays_empty() {
    let text: Vec<u8> = Vec::new();
    let entries = vec![(b"DDPMS".to_vec(), b"2222".to_vec())];
    assert_eq!(rewrite_manifest(&text, &entries), Vec::<u8>::new());
}

#[test]
fn finds_first_descriptor_by_content() {
    let files = vec![
        b"nothing to see".to_vec(),
        b"DDP level CDTEXT 000036".to_vec(),
        b"another CDTEXT".to_vec(),
    ];
    assert_eq!(find_descriptor(&files), Some(1));
    let no_match = vec![b"nothing".to_vec()];
    assert_eq!(find_descriptor(&no_match), None);
}

#[test]
fn end_to_end_repair() {
    let cdtext = defective_cdtext();
    let descriptor = b"DDPID\n000039 CDTEXT DESCR\n".to_vec();
    let manifest =
        b"d41d8cd98f00b204e9800998ecf8427e *CDTEXT.BIN\nffff *DDPMS\nabcd *OTHER\n".to_vec();
    let ddpms = b"ddp master sheet bytes".to_vec();

    let plan = plan_repair(&cdtext, Some(&descriptor), Some(&manifest), Some(&ddpms));

    let new_cdtext = plan.new_cdtext.expect("the defect should be patched");
    assert_eq!(new_cdtext.len(), cdtext.len() - 18);

    let new_descriptor = plan.new_descriptor.expect("the size field should change");
    assert_eq!(new_descriptor, b"DDPID\n000021 CDTEXT DESCR\n".to_vec());

    let new_manifest = plan.new_manifest.expect("the manifest should be rewritten");
    let cd_digest = format!("{:x}", md5::compute(&new_cdtext));
    let dd_digest = format!("{:x}", md5::compute(&ddpms));
    let expected = format!("{} *CDTEXT.BIN\n{} *DDPMS\nabcd *OTHER\n", cd_digest, dd_digest);
    assert_eq!(new_manifest, expected.into_bytes());
}

#[test]
fn manifest_digest_is_real_md5() {
    // the digest the pipeline writes must agree with an independently
    // computed MD5 of the same bytes, not be an echo of the input
    let cdtext = defective_cdtext();
    let manifest = b"old *CDTEXT.BIN\n".to_vec();
    let plan = plan_repair(&cdtext, None, Some(&manifest), None);
    let new_manifest = plan.new_manifest.expect("the manifest should be rewritten");
    let fixed = fix_cdtext_bin(&cdtext).expect("the defect should be patched");
    let expected = format!("{:x} *CDTEXT.BIN\n", md5::compute(&fixed));
    assert_eq!(new_manifest, expected.into_bytes());
    // 32 lowercase hex characters before the marker
    assert_eq!(new_manifest.iter().position(|&b| b == b' '), Some(32));
}

#[test]
fn no_descriptor_and_no_manifest_are_tolerated() {
    let cdtext = defective_cdtext();
    let plan = plan_repair(&cdtext, None, None, None);
    assert!(plan.new_cdtext.is_some());
    assert!(plan.new_descriptor.is_none());
    assert!(plan.new_manifest.is_none());
}
