use minmpeg::nal::{
    annexb_to_avcc, convert_avcc_to_annex_b, find_start_code, is_sync_sample,
    parse_annexb_payloads, parse_avcc_payloads, parse_h264_packets, ParamSets,
};
use minmpeg::sps::{encode_exp_golomb, generate_fallback_sps_pps};

fn avcc_of(nals: &[&[u8]]) -> Vec<u8> {
    let mut out = Vec::new();
    for nal in nals {
        out.extend_from_slice(&(nal.len() as u32).to_be_bytes());
        out.extend_from_slice(nal);
    }
    out
}

fn annexb_of(nals: &[&[u8]]) -> Vec<u8> {
    let mut out = Vec::new();
    for nal in nals {
        out.extend_from_slice(&[0, 0, 0, 1]);
        out.extend_from_slice(nal);
    }
    out
}

#[test]
fn test_avcc_annexb_roundtrip() {
    // An arbitrary NAL payload sequence survives the AVCC -> Annex B
    // -> AVCC round trip with its exact bytes and boundaries.
    let nals: [&[u8]; 3] = [&[0x65, 1, 2, 3], &[0x41, 0xFF], &[0x06, 0, 0, 2, 0]];
    let avcc = avcc_of(&nals);
    let annexb = convert_avcc_to_annex_b(&avcc);
    assert_eq!(annexb, annexb_of(&nals));
    let back = annexb_to_avcc(&annexb);
    assert_eq!(back, avcc);
}

#[test]
fn test_avcc_roundtrip_trailing_zero_payload() {
    // A payload ending in zeros still keeps its boundary.
    let nals: [&[u8]; 2] = [&[0x65, 0x00], &[0x41, 9]];
    let avcc = avcc_of(&nals);
    let back = annexb_to_avcc(&convert_avcc_to_annex_b(&avcc));
    assert_eq!(back, avcc);
}

#[test]
fn test_convert_avcc_drops_truncated_record() {
    // A trailing record whose declared length exceeds the data is
    // dropped rather than read out of bounds.
    let mut avcc = avcc_of(&[&[0x65, 1][..]]);
    avcc.extend_from_slice(&[0, 0, 0, 9, 1, 2]);
    let annexb = convert_avcc_to_annex_b(&avcc);
    assert_eq!(annexb, vec![0, 0, 0, 1, 0x65, 1]);
}

#[test]
fn test_find_start_code_prefers_earliest() {
    let data = vec![9u8, 0, 0, 1, 0x65, 0, 0, 0, 1, 0x41];
    assert_eq!(find_start_code(&data, 0), Some((1, 3)));
    assert_eq!(find_start_code(&data, 4), Some((5, 4)));
    assert_eq!(find_start_code(&data, 9), None);
}

#[test]
fn test_parse_annexb_payloads() {
    let nals: [&[u8]; 2] = [&[0x67, 0x42], &[0x68, 0xCE]];
    let parsed = parse_annexb_payloads(&annexb_of(&nals));
    assert_eq!(parsed.len(), 2);
    assert_eq!(parsed[0], vec![0x67, 0x42]);
    assert_eq!(parsed[1], vec![0x68, 0xCE]);
}

#[test]
fn test_parse_avcc_payloads_stops_at_zero_length() {
    let mut data = avcc_of(&[&[0x67, 0x42][..]]);
    data.extend_from_slice(&[0, 0, 0, 0, 0x99, 0x99]);
    let parsed = parse_avcc_payloads(&data);
    assert_eq!(parsed.len(), 1);
    assert_eq!(parsed[0], vec![0x67, 0x42]);
}

#[test]
fn test_parse_h264_packets_keyframes() {
    // NAL type 5 (IDR) marks a keyframe; other types do not.
    let nals: [&[u8]; 3] = [&[0x67, 1], &[0x65, 2], &[0x41, 3]];
    let packets = parse_h264_packets(&annexb_of(&nals), 7);
    assert_eq!(packets.len(), 3);
    assert!(!packets[0].is_keyframe);
    assert!(packets[1].is_keyframe);
    assert!(!packets[2].is_keyframe);
    assert_eq!(packets[0].pts, 7);
    assert_eq!(packets[1].pts, 8);
    assert_eq!(packets[2].pts, 9);
    assert_eq!(packets[1].data, vec![0x65, 2]);
}

#[test]
fn test_extract_parameter_sets_both_layouts() {
    // The same logical stream in either wire layout yields the same
    // type-7 and type-8 records.
    let sps: &[u8] = &[0x67, 0x42, 0xC0, 0x28, 0x11];
    let pps: &[u8] = &[0x68, 0xCE, 0x3C, 0x80];
    let idr: &[u8] = &[0x65, 1, 2];
    let nals = [sps, pps, idr];

    let mut from_annexb = ParamSets::new();
    from_annexb.extract_sps_pps(&annexb_of(&nals));
    assert_eq!(from_annexb.sps.as_deref(), Some(sps));
    assert_eq!(from_annexb.pps.as_deref(), Some(pps));

    let mut from_avcc = ParamSets::new();
    from_avcc.extract_sps_pps(&avcc_of(&nals));
    assert_eq!(from_avcc.sps.as_deref(), Some(sps));
    assert_eq!(from_avcc.pps.as_deref(), Some(pps));
}

#[test]
fn test_extract_keeps_held_records_when_none_found() {
    let sps: &[u8] = &[0x67, 0x42];
    let pps: &[u8] = &[0x68, 0xCE];
    let mut ps = ParamSets::new();
    ps.extract_sps_pps(&annexb_of(&[sps, pps]));
    assert_eq!(ps.sps.as_deref(), Some(sps));
    assert_eq!(ps.pps.as_deref(), Some(pps));
    // A later stream without parameter sets leaves both records held.
    ps.extract_sps_pps(&annexb_of(&[&[0x41, 0x42][..]]));
    assert_eq!(ps.sps.as_deref(), Some(sps));
    assert_eq!(ps.pps.as_deref(), Some(pps));
}

#[test]
fn test_exp_golomb_codes() {
    let mut bits: Vec<bool> = Vec::new();
    encode_exp_golomb(&mut bits, 0);
    assert_eq!(bits, vec![true]);

    let mut bits3: Vec<bool> = Vec::new();
    encode_exp_golomb(&mut bits3, 3);
    assert_eq!(bits3, vec![false, false, true, false, false]);
}

#[test]
fn test_fallback_sps_pps() {
    // 640x480 is a 40x30 macroblock grid; the synthesized SPS encodes
    // grid-minus-one values 39 and 29 after the fixed header.
    let (sps, pps) = generate_fallback_sps_pps(640, 480);
    assert_eq!(sps, vec![0x67, 66, 0xC0, 40, 0xDA, 0x02, 0x80, 0xF6, 0x40]);
    assert_eq!(pps, vec![0x68, 0xCE, 0x3C, 0x80]);
    // The NAL types are 7 (SPS) and 8 (PPS).
    assert_eq!(sps[0] & 0x1F, 7);
    assert_eq!(pps[0] & 0x1F, 8);
}

#[test]
fn test_sync_sample_marker() {
    // No "not a sync sample" marker means the sample is a keyframe.
    assert!(is_sync_sample(None));
    assert!(is_sync_sample(Some(false)));
    assert!(!is_sync_sample(Some(true)));
}
