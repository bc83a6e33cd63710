use fox_challenge::challenge::{Challenge, FailureReason, PeerAddr, MIN_PARTS, TIME_LIMIT_NANOS};
use fox_challenge::crypto::{combine_secret, xor_in_place};
use fox_challenge::models::{handle_submission, SecretKeySubmission, SubmissionResponse};

const START: u64 = 5_000;

fn round_with_players(n: u32) -> (Challenge<u32>, Vec<Vec<u8>>, Vec<u32>) {
    let mut c: Challenge<u32> = Challenge::new("top secret");
    for i in 0..n {
        assert!(c.add_player(PeerAddr::V4(i), 100 + i).is_ok());
    }
    let r = c.start_new_round(START);
    (c, r.shares, r.recipients)
}

#[test]
fn round_share_counts() {
    assert_eq!(MIN_PARTS, 3);
    for (players, parts) in [(0, 3), (1, 3), (2, 3), (5, 5)] {
        let (c, shares, recipients) = round_with_players(players);
        assert_eq!(shares.len(), parts);
        assert_eq!(recipients.len(), players as usize);
        assert_eq!(c.num_players(), 0);
        assert!(c.has_pending_pad());
        assert!(shares.iter().all(|s| s.len() == "top secret".len()));
    }
}

#[test]
fn recipients_in_registration_order() {
    let (_, _, recipients) = round_with_players(4);
    assert_eq!(recipients, vec![100, 101, 102, 103]);
}

#[test]
fn duplicate_address_rejected() {
    let mut c: Challenge<u32> = Challenge::new("s");
    assert_eq!(c.add_player(PeerAddr::V4(0x7f000001), 1), Ok(()));
    assert_eq!(c.add_player(PeerAddr::V4(0x7f000001), 2), Err(2));
    assert_eq!(c.add_player(PeerAddr::V6(0x7f000001), 3), Ok(()));
    assert_eq!(c.num_players(), 2);
    let r = c.start_new_round(0);
    assert_eq!(r.recipients, vec![1, 3]);
}

#[test]
fn correct_submission_succeeds_once() {
    let (mut c, shares, _) = round_with_players(0);
    let pad = combine_secret(&shares);
    let released = c.submit_secret_key(&pad, START + 10).ok().unwrap();
    let mut expected = b"top secret".to_vec();
    xor_in_place(&mut expected, &pad);
    assert_eq!(released, base64::encode(&expected));
    assert!(!c.has_pending_pad());
    assert_eq!(c.submit_secret_key(&pad, START + 20).err(), Some(FailureReason::LateSubmission));
}

#[test]
fn late_submission_rejected() {
    let (mut c, shares, _) = round_with_players(2);
    let pad = combine_secret(&shares);
    let r = c.submit_secret_key(&pad, START + TIME_LIMIT_NANOS);
    assert_eq!(r.err(), Some(FailureReason::LateSubmission));
    assert!(!c.has_pending_pad());
}

#[test]
fn just_in_time_submission_accepted() {
    let (mut c, shares, _) = round_with_players(1);
    let pad = combine_secret(&shares);
    assert!(c.submit_secret_key(&pad, START + TIME_LIMIT_NANOS - 1).is_ok());
}

#[test]
fn wrong_key_is_invalid_and_consumes_the_pad() {
    let (mut c, shares, _) = round_with_players(0);
    let mut pad = combine_secret(&shares);
    let right = pad.clone();
    pad[0] ^= 1;
    assert_eq!(c.submit_secret_key(&pad, START).err(), Some(FailureReason::InvalidSecretKey));
    assert_eq!(c.submit_secret_key(&right, START).err(), Some(FailureReason::LateSubmission));
}

#[test]
fn submission_before_any_round_is_late() {
    let mut c: Challenge<u32> = Challenge::new("abc");
    assert_eq!(c.submit_secret_key(b"abc", 0).err(), Some(FailureReason::LateSubmission));
}

#[test]
fn rounds_are_counted_and_replace_the_pad() {
    let mut c: Challenge<u32> = Challenge::new("abc");
    assert_eq!(c.round(), 0);
    let first = combine_secret(&c.start_new_round(0).shares);
    let second = combine_secret(&c.start_new_round(10).shares);
    assert_eq!(c.round(), 2);
    if first != second {
        assert_eq!(c.submit_secret_key(&first, 11).err(), Some(FailureReason::InvalidSecretKey));
    }
}

#[test]
fn hello_scenario() {
    let mut c: Challenge<u32> = Challenge::new("hello");
    let r = c.start_new_round(START);
    assert_eq!(r.shares.len(), 3);
    assert!(r.recipients.is_empty());
    assert!(c.has_pending_pad());
    let pad = combine_secret(&r.shares);
    assert_eq!(pad.len(), 5);
    let body = SecretKeySubmission { secret_key: base64::encode(&pad) };
    let resp = handle_submission(&mut c, &body, START + 500_000_000);
    assert!(resp.secret_key_verified);
    assert_eq!(resp.message, None);
    let encrypted = resp.encrypted_secret.unwrap();
    assert!(!encrypted.is_empty());
    let mut plain = base64::decode(&encrypted).unwrap();
    xor_in_place(&mut plain, &pad);
    assert_eq!(plain, b"hello".to_vec());
}

#[test]
fn malformed_base64_scenario() {
    let mut c: Challenge<u32> = Challenge::new("hello");
    c.start_new_round(START);
    let body = SecretKeySubmission { secret_key: "not base64!!".to_string() };
    let resp = handle_submission(&mut c, &body, START);
    assert!(!resp.secret_key_verified);
    assert_eq!(resp.encrypted_secret, None);
    assert_eq!(resp.message.as_deref(), Some("Submission rejected: Invalid base64 encoding"));
    assert!(c.has_pending_pad());
}

#[test]
fn wrong_key_response_message() {
    let mut c: Challenge<u32> = Challenge::new("hello");
    c.start_new_round(START);
    let body = SecretKeySubmission { secret_key: base64::encode([0u8; 2]) };
    let resp = handle_submission(&mut c, &body, START);
    assert!(!resp.secret_key_verified);
    assert_eq!(resp.encrypted_secret, None);
    assert_eq!(resp.message.as_deref(), Some("Invalid submission: wrong key or too late"));
    assert!(!c.has_pending_pad());
}

#[test]
fn late_response_message() {
    let mut c: Challenge<u32> = Challenge::new("hello");
    let body = SecretKeySubmission { secret_key: base64::encode(b"hello") };
    let resp = handle_submission(&mut c, &body, START);
    assert_eq!(resp.message.as_deref(), Some("Invalid submission: wrong key or too late"));
}

#[test]
fn failed_response() {
    let r = SubmissionResponse::failed("nope");
    assert!(!r.secret_key_verified);
    assert_eq!(r.encrypted_secret, None);
    assert_eq!(r.message, Some("nope".to_string()));
}
