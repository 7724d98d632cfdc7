use amcrust::srtp::{has_overlong_elements, SrtpSession, TimestampRescaler};
use amcrust::stream::proxy::MediaProxy;

#[test]
fn protects_rtp_and_rtcp() {
    let master = [7u8; 30];
    let mut session = SrtpSession::new(&master).unwrap();

    let mut rtp = vec![0x80, 110, 0, 1, 0, 0, 3, 0xE8, 0, 0, 0, 42];
    rtp.extend_from_slice(b"opusdata");
    let protected_rtp = session.protect_rtp(&rtp).unwrap();
    assert_eq!(protected_rtp.len(), rtp.len() + 10);
    assert_eq!(&protected_rtp[..12], &rtp[..12]);

    let mut rtcp = vec![0x80, 200, 0, 6];
    rtcp.extend_from_slice(&42u32.to_be_bytes());
    rtcp.extend_from_slice(&[0u8; 20]);
    let protected_rtcp = session.protect_rtcp(&rtcp).unwrap();
    assert_eq!(protected_rtcp.len(), rtcp.len() + 14);
}

#[test]
fn rescaler_keeps_rtp_and_sender_report_clocks_aligned() {
    let mut rescaler = TimestampRescaler::new(3);
    let mut rtp = vec![0u8; 12];
    rtp[4..8].copy_from_slice(&9960u32.to_be_bytes());
    rescaler.rescale_rtp(&mut rtp);
    let rtp_timestamp = u32::from_be_bytes(rtp[4..8].try_into().unwrap());

    let mut rtcp = vec![0x80, 200, 0, 6];
    rtcp.extend_from_slice(&42u32.to_be_bytes());
    rtcp.extend_from_slice(&[0u8; 8]);
    rtcp.extend_from_slice(&9960u32.to_be_bytes());
    rtcp.extend_from_slice(&[0u8; 8]);
    rescaler.rescale_rtcp(&mut rtcp);
    let rtcp_timestamp = u32::from_be_bytes(rtcp[16..20].try_into().unwrap());

    assert_eq!(rtcp_timestamp, rtp_timestamp);
}

#[test]
fn key_material_has_thirty_bytes() {
    assert!(SrtpSession::new(&[7u8; 29]).is_none());
    assert!(SrtpSession::new(&[7u8; 31]).is_none());
    assert!(MediaProxy::new(&[7u8; 16], 1).is_none());
}

#[test]
fn payloads_are_encrypted() {
    let mut session = SrtpSession::new(&[7u8; 30]).unwrap();
    let mut rtp = vec![0x80, 110, 0, 1, 0, 0, 3, 0xE8, 0, 0, 0, 42];
    rtp.extend_from_slice(b"opusdata");
    let protected = session.protect_rtp(&rtp).unwrap();
    assert_ne!(&protected[12..20], b"opusdata");
    assert!(session.protect_rtp(&rtp[..11]).is_none());
}

#[test]
fn feedback_comes_back_as_it_was() {
    let mut here = SrtpSession::new(&[7u8; 30]).unwrap();
    let mut there = SrtpSession::new(&[7u8; 30]).unwrap();
    let mut report = vec![0x80, 201, 0, 1];
    report.extend_from_slice(&42u32.to_be_bytes());
    let wire = there.protect_rtcp(&report).unwrap();
    assert_ne!(wire, report);
    assert_eq!(here.unprotect_rtcp(&wire), Some(report.clone()));
    let mut other = SrtpSession::new(&[8u8; 30]).unwrap();
    assert_eq!(other.unprotect_rtcp(&wire), None);
    assert_eq!(there.protect_rtcp(&report[..7]), None);
}

#[test]
fn timestamps_are_divided_from_a_base() {
    let mut rescaler = TimestampRescaler::with_base(3, 100);
    assert_eq!(rescaler.rescale_timestamp(48_000), 100);
    assert_eq!(rescaler.rescale_timestamp(48_960), 100 + 320);
    let mut wrapping = TimestampRescaler::with_base(1, 0);
    assert_eq!(wrapping.rescale_timestamp(u32::MAX), 0);
    assert_eq!(wrapping.rescale_timestamp(4), 5);
}

#[test]
fn proxies_rewrite_and_protect() {
    let mut proxy = MediaProxy::new(&[7u8; 30], 3).unwrap();
    let mut rtp = vec![0x80, 110, 0, 1, 0, 0, 3, 0xE8, 0, 0, 0, 42];
    rtp.extend_from_slice(b"opusdata");
    let before = rtp.clone();
    let out = proxy.rtp(&mut rtp).unwrap();
    assert_eq!(&out[..12], &rtp[..12]);
    assert_eq!(&rtp[..4], &before[..4]);
    assert_eq!(&rtp[8..], &before[8..]);
    let mut no_rtp = vec![0x40; 12];
    assert!(proxy.rtp(&mut no_rtp).is_none());
    let mut report = vec![0x80, 201, 0, 1];
    report.extend_from_slice(&42u32.to_be_bytes());
    let wire = proxy.rtcp(&mut report).unwrap();
    let mut controller = MediaProxy::new(&[7u8; 30], 1).unwrap();
    assert_eq!(controller.feedback(&wire), Some(report));
}

#[test]
fn header_elements_must_end_in_the_packet() {
    let mut session = SrtpSession::new(&[7u8; 30]).unwrap();
    let mut packet = vec![0x90, 110, 0, 1, 0, 0, 3, 0xE8, 0, 0, 0, 42, 0xbe, 0xde, 0, 1];
    packet.extend_from_slice(&[0x10, 0xaa, 0, 0]);
    assert!(!has_overlong_elements(&packet));
    assert_eq!(session.protect_rtp(&packet).unwrap().len(), packet.len() + 10);
    packet[16] = 0x13;
    assert!(has_overlong_elements(&packet));
    assert!(!MediaProxy::takes(&packet));
    packet[12] = 0x10;
    packet[13] = 0;
    packet[17] = 2;
    assert!(!has_overlong_elements(&packet));
    packet[17] = 3;
    assert!(has_overlong_elements(&packet));
    packet[0] = 0x50;
    assert!(MediaProxy::takes(&packet));
    packet[0] = 0x80;
    assert!(!has_overlong_elements(&packet));
    assert!(MediaProxy::takes(&packet));
}
