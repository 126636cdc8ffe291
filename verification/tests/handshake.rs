use naboscale::crypto::error::NoiseFailure;
use naboscale::crypto::mac::{
    compute_mac1, compute_mac2, cookie_key, hash1, hash_bytes, mac1_key,
};
use naboscale::crypto::{
    Error, Identity, Initiator, Keypair, Responder, Tai64N, Transport, INIT_SIZE, RESPONSE_SIZE,
};

const REPLAY_WINDOW_SECONDS: u64 = 120;
const MESSAGE_TYPE_INIT: u8 = 0x01;
const MESSAGE_TYPE_RESPONSE: u8 = 0x02;
const MESSAGE_TYPE_TRANSPORT: u8 = 0x04;
const PSK: [u8; 32] = [42u8; 32];

struct TransportPair {
    alice_t: Transport,
    bob_t: Transport,
}

fn handshake_pair() -> (TransportPair, u32, u32) {
    let alice = Keypair::generate();
    let bob = Keypair::generate();
    let now = Tai64N::from_unix(1_700_000_000, 0);

    let mut alice_hs = Initiator::new(&alice, bob.public(), PSK, 1, now).unwrap();
    let mut bob_hs = Responder::new(&bob, PSK, 2, now).unwrap();

    let init = alice_hs.write_init().unwrap();
    let response = bob_hs.consume_init(&init).unwrap();
    let alice_t = alice_hs.consume_response(&response).unwrap();
    let bob_t = bob_hs.into_transport().unwrap();
    (TransportPair { alice_t, bob_t }, 1, 2)
}

#[test]
fn responder_rejects_init_with_timestamp_too_old() {
    let alice = Keypair::generate();
    let bob = Keypair::generate();
    let psk = [42u8; 32];

    let now = Tai64N::from_unix(2_000_000_000, 0);
    let stale = Tai64N::from_unix(2_000_000_000 - REPLAY_WINDOW_SECONDS - 1, 0);

    let mut alice_hs = Initiator::new(&alice, bob.public(), psk, 1, stale).unwrap();
    let mut bob_hs = Responder::new(&bob, psk, 2, now).unwrap();

    let msg1 = alice_hs.write_init().unwrap();
    let result = bob_hs.consume_init(&msg1);

    assert!(
        matches!(result, Err(Error::InvalidTimestamp)),
        "expected InvalidTimestamp, got {:?}",
        result
    );
}

#[test]
fn responder_rejects_init_with_timestamp_in_future() {
    let alice = Keypair::generate();
    let bob = Keypair::generate();
    let psk = [42u8; 32];

    let now = Tai64N::from_unix(2_000_000_000, 0);
    let future = Tai64N::from_unix(2_000_000_000 + REPLAY_WINDOW_SECONDS + 1, 0);

    let mut alice_hs = Initiator::new(&alice, bob.public(), psk, 1, future).unwrap();
    let mut bob_hs = Responder::new(&bob, psk, 2, now).unwrap();

    let msg1 = alice_hs.write_init().unwrap();
    let result = bob_hs.consume_init(&msg1);

    assert!(matches!(result, Err(Error::InvalidTimestamp)));
}

#[test]
fn responder_accepts_init_within_replay_window() {
    let alice = Keypair::generate();
    let bob = Keypair::generate();
    let psk = [42u8; 32];

    let now = Tai64N::from_unix(2_000_000_000, 0);
    let recent = Tai64N::from_unix(2_000_000_000 - 30, 0);

    let mut alice_hs = Initiator::new(&alice, bob.public(), psk, 1, recent).unwrap();
    let mut bob_hs = Responder::new(&bob, psk, 2, now).unwrap();

    let msg1 = alice_hs.write_init().unwrap();
    let result = bob_hs.consume_init(&msg1);

    assert!(result.is_ok(), "expected ok, got {:?}", result);
}

#[test]
fn init_message_is_wireguard_compatible_size() {
    let alice = Keypair::generate();
    let bob = Keypair::generate();
    let now = Tai64N::from_unix(1_700_000_000, 0);

    let mut alice_hs = Initiator::new(&alice, bob.public(), PSK, 0x11223344, now).unwrap();
    let init = alice_hs.write_init().unwrap();

    assert_eq!(init.len(), INIT_SIZE);
    assert_eq!(init[0], MESSAGE_TYPE_INIT);
    assert_eq!(&init[1..4], &[0u8, 0, 0], "reserved_zero must be zero");
    let sender_id = u32::from_le_bytes(init[4..8].try_into().unwrap());
    assert_eq!(sender_id, 0x11223344);
}

#[test]
fn response_message_is_wireguard_compatible_size() {
    let alice = Keypair::generate();
    let bob = Keypair::generate();
    let now = Tai64N::from_unix(1_700_000_000, 0);

    let mut alice_hs = Initiator::new(&alice, bob.public(), PSK, 1, now).unwrap();
    let mut bob_hs = Responder::new(&bob, PSK, 2, now).unwrap();

    let init = alice_hs.write_init().unwrap();
    let response = bob_hs.consume_init(&init).unwrap();

    assert_eq!(response.len(), RESPONSE_SIZE);
    assert_eq!(response[0], MESSAGE_TYPE_RESPONSE);
    assert_eq!(&response[1..4], &[0u8, 0, 0]);
    let resp_sender_id = u32::from_le_bytes(response[4..8].try_into().unwrap());
    assert_eq!(resp_sender_id, 2);
    let resp_receiver_id = u32::from_le_bytes(response[8..12].try_into().unwrap());
    assert_eq!(
        resp_receiver_id, 1,
        "receiver_id must echo initiator's sender_id"
    );
}

#[test]
fn responder_rejects_init_with_wrong_message_type() {
    let alice = Keypair::generate();
    let bob = Keypair::generate();
    let now = Tai64N::from_unix(1_700_000_000, 0);

    let mut alice_hs = Initiator::new(&alice, bob.public(), PSK, 1, now).unwrap();
    let mut bob_hs = Responder::new(&bob, PSK, 2, now).unwrap();

    let mut init = alice_hs.write_init().unwrap();
    init[0] = 0x99;

    let result = bob_hs.consume_init(&init);
    assert!(
        result.is_err(),
        "responder must reject unknown message types"
    );
    assert!(matches!(result, Err(Error::InvalidMessageType(0x99))));
}

#[test]
fn initiator_rejects_response_with_wrong_receiver_id() {
    let alice = Keypair::generate();
    let bob = Keypair::generate();
    let now = Tai64N::from_unix(1_700_000_000, 0);

    let mut alice_hs = Initiator::new(&alice, bob.public(), PSK, 1, now).unwrap();
    let mut bob_hs = Responder::new(&bob, PSK, 2, now).unwrap();

    let init = alice_hs.write_init().unwrap();
    let mut response = bob_hs.consume_init(&init).unwrap();
    response[8..12].copy_from_slice(&0xdeadbeefu32.to_le_bytes());

    let result = alice_hs.consume_response(&response);
    assert!(
        result.is_err(),
        "initiator must reject responses not addressed to it"
    );
}

#[test]
fn responder_rejects_init_with_tampered_mac1() {
    let alice = Keypair::generate();
    let bob = Keypair::generate();
    let now = Tai64N::from_unix(1_700_000_000, 0);

    let mut alice_hs = Initiator::new(&alice, bob.public(), PSK, 1, now).unwrap();
    let mut bob_hs = Responder::new(&bob, PSK, 2, now).unwrap();

    let mut init = alice_hs.write_init().unwrap();
    init[140] ^= 0x01;

    let result = bob_hs.consume_init(&init);
    assert!(matches!(result, Err(Error::MacInvalid)));
}

#[test]
fn initiator_rejects_response_with_tampered_mac1() {
    let alice = Keypair::generate();
    let bob = Keypair::generate();
    let now = Tai64N::from_unix(1_700_000_000, 0);

    let mut alice_hs = Initiator::new(&alice, bob.public(), PSK, 1, now).unwrap();
    let mut bob_hs = Responder::new(&bob, PSK, 2, now).unwrap();

    let init = alice_hs.write_init().unwrap();
    let mut response = bob_hs.consume_init(&init).unwrap();
    response[80] ^= 0x01;

    let result = alice_hs.consume_response(&response);
    assert!(matches!(result, Err(Error::MacInvalid)));
}

#[test]
fn noise_ikpsk2_handshake_derives_matching_transport_keys() {
    let alice = Keypair::generate();
    let bob = Keypair::generate();
    let now = Tai64N::from_unix(1_700_000_000, 0);

    let mut alice_hs = Initiator::new(&alice, bob.public(), PSK, 1, now).unwrap();
    let mut bob_hs = Responder::new(&bob, PSK, 2, now).unwrap();

    let msg1 = alice_hs.write_init().unwrap();
    let msg2 = bob_hs.consume_init(&msg1).unwrap();
    let mut alice_t = alice_hs.consume_response(&msg2).unwrap();
    let mut bob_t = bob_hs.into_transport().unwrap();

    let plaintext = b"hello from alice";
    let mut ciphertext = [0u8; 1024];
    let ct_len = alice_t.encrypt(plaintext, 2, &mut ciphertext).unwrap();
    let mut decrypted = [0u8; 1024];
    let pt_len = bob_t.decrypt(&ciphertext[..ct_len], &mut decrypted).unwrap();
    assert_eq!(&decrypted[..pt_len], plaintext);

    let mut ciphertext2 = [0u8; 1024];
    let ct2_len = bob_t.encrypt(b"reply from bob", 1, &mut ciphertext2).unwrap();
    let mut decrypted2 = [0u8; 1024];
    let pt2_len = alice_t.decrypt(&ciphertext2[..ct2_len], &mut decrypted2).unwrap();
    assert_eq!(&decrypted2[..pt2_len], b"reply from bob");
}

#[test]
fn sign_and_verify_round_trip() {
    let id = Identity::generate();
    let msg = b"hello world";
    let sig = id.sign(msg);
    assert!(Identity::verify(&id.public(), msg, &sig));
}

#[test]
fn verify_rejects_tampered_message() {
    let id = Identity::generate();
    let mut msg = b"hello world".to_vec();
    let sig = id.sign(&msg);
    msg[0] ^= 0x01;
    assert!(!Identity::verify(&id.public(), &msg, &sig));
}

#[test]
fn verify_rejects_wrong_key() {
    let id1 = Identity::generate();
    let id2 = Identity::generate();
    let msg = b"hello world";
    let sig = id1.sign(msg);
    assert!(!Identity::verify(&id2.public(), msg, &sig));
}

#[test]
fn identity_can_be_recovered_from_private_bytes() {
    let id1 = Identity::generate();
    let bytes = id1.private_bytes();
    let id2 = Identity::from_bytes(bytes);
    assert_eq!(id1.public(), id2.public());

    let msg = b"recovered";
    let sig = id2.sign(msg);
    assert!(Identity::verify(&id1.public(), msg, &sig));
}

#[test]
fn transport_encrypts_with_wireguard_framing() {
    let (mut pair, _, bob_sender_id) = handshake_pair();

    let plaintext = b"hello over the wire";
    let mut ciphertext = vec![0u8; 32 + plaintext.len() + 16];
    let ct_len = pair.alice_t.encrypt(plaintext, bob_sender_id, &mut ciphertext).unwrap();

    assert_eq!(ciphertext[0], MESSAGE_TYPE_TRANSPORT);
    assert_eq!(&ciphertext[1..4], &[0u8, 0, 0]);
    let receiver_id = u32::from_le_bytes(ciphertext[4..8].try_into().unwrap());
    assert_eq!(receiver_id, bob_sender_id);
    let counter = u64::from_le_bytes(ciphertext[8..16].try_into().unwrap());
    assert_eq!(counter, 0);

    let mut decrypted = vec![0u8; plaintext.len() + 16];
    let pt_len = pair.bob_t.decrypt(&ciphertext[..ct_len], &mut decrypted).unwrap();
    assert_eq!(&decrypted[..pt_len], plaintext);
}

#[test]
fn send_counter_increments_per_packet() {
    let (mut pair, _, bob_sender_id) = handshake_pair();

    let mut out1 = [0u8; 64];
    let mut out2 = [0u8; 64];
    let mut out3 = [0u8; 64];

    pair.alice_t.encrypt(b"pkt0", bob_sender_id, &mut out1).unwrap();
    pair.alice_t.encrypt(b"pkt1", bob_sender_id, &mut out2).unwrap();
    pair.alice_t.encrypt(b"pkt2", bob_sender_id, &mut out3).unwrap();

    assert_eq!(u64::from_le_bytes(out1[8..16].try_into().unwrap()), 0);
    assert_eq!(u64::from_le_bytes(out2[8..16].try_into().unwrap()), 1);
    assert_eq!(u64::from_le_bytes(out3[8..16].try_into().unwrap()), 2);
}

#[test]
fn bidirectional_transport_round_trip() {
    let (mut pair, alice_sender_id, bob_sender_id) = handshake_pair();

    let mut c1 = [0u8; 64];
    let mut c2 = [0u8; 64];
    let l1 = pair.alice_t.encrypt(b"from alice", bob_sender_id, &mut c1).unwrap();
    let l2 = pair.bob_t.encrypt(b"from bob", alice_sender_id, &mut c2).unwrap();

    let mut d1 = [0u8; 32];
    let mut d2 = [0u8; 32];
    let p1 = pair.bob_t.decrypt(&c1[..l1], &mut d1).unwrap();
    let p2 = pair.alice_t.decrypt(&c2[..l2], &mut d2).unwrap();
    assert_eq!(&d1[..p1], b"from alice");
    assert_eq!(&d2[..p2], b"from bob");
}

#[test]
fn transport_rejects_packet_with_wrong_message_type() {
    let (mut pair, _, _) = handshake_pair();

    let mut garbage = [0u8; 64];
    garbage[0] = 0x99;
    let mut out = [0u8; 32];
    let result = pair.bob_t.decrypt(&garbage, &mut out);
    assert!(result.is_err());
    assert!(matches!(result, Err(Error::InvalidMessageType(0x99))));
}

#[test]
fn timestamps_survive_the_wire() {
    let t = Tai64N::from_unix(0x0102_0304_0506_0708 - 37, 0x0a0b_0c0d);
    assert_eq!(t.to_bytes(), [1, 2, 3, 4, 5, 6, 7, 8, 10, 11, 12, 13]);
    assert_eq!(Tai64N::from_bytes(t.to_bytes()), t);
    assert_eq!(t.seconds(), 0x0102_0304_0506_0708);
    assert_eq!(Tai64N::SIZE, 12);
    let order = [(1, 5), (1, 6), (255, 0), (256, 0), (256, 0x0100_0000), (1 << 40, 3)];
    for i in 0..order.len() {
        for j in 0..order.len() {
            let a = Tai64N::from_unix(order[i].0, order[i].1);
            let b = Tai64N::from_unix(order[j].0, order[j].1);
            assert_eq!(a < b, i < j);
            assert_eq!(a.to_bytes() < b.to_bytes(), i < j);
            assert_eq!(a.cmp(&b), i.cmp(&j));
        }
    }
}

#[test]
fn the_clock_is_read() {
    let t = Tai64N::now().unwrap();
    assert!(t.seconds() > 1_600_000_000);
    assert_eq!(Tai64N::from_clock(Some((5, 6))), Some(Tai64N::from_unix(5, 6)));
    assert_eq!(Tai64N::from_clock(Some((u64::MAX - 36, 0))), None);
    assert_eq!(Tai64N::from_clock(None), None);
}

#[test]
fn window_edges_are_accepted() {
    let alice = Keypair::generate();
    let bob = Keypair::generate();
    for sent in [2_000_000_000u64 - 120, 2_000_000_000 + 120] {
        let now = Tai64N::from_unix(2_000_000_000, 0);
        let at = Tai64N::from_unix(sent, 0);
        let mut a = Initiator::new(&alice, bob.public(), PSK, 1, at).unwrap();
        let mut b = Responder::new(&bob, PSK, 2, now).unwrap();
        assert!(b.consume_init(&a.write_init().unwrap()).is_ok());
    }
}

#[test]
fn far_off_timestamps_are_refused_without_overflow() {
    let alice = Keypair::generate();
    let bob = Keypair::generate();
    let now = Tai64N::from_unix(2_000_000_000, 0);
    for seconds in [u64::MAX, 1u64 << 63, (1u64 << 63) - 1] {
        let mut wire = [0u8; 12];
        wire[..8].copy_from_slice(&seconds.to_be_bytes());
        let at = Tai64N::from_bytes(wire);
        let mut a = Initiator::new(&alice, bob.public(), PSK, 1, at).unwrap();
        let mut b = Responder::new(&bob, PSK, 2, now).unwrap();
        let r = b.consume_init(&a.write_init().unwrap());
        assert!(matches!(r, Err(Error::InvalidTimestamp)));
    }
}

#[test]
fn short_messages_are_refused() {
    let alice = Keypair::generate();
    let bob = Keypair::generate();
    let now = Tai64N::from_unix(1_700_000_000, 0);
    let mut b = Responder::new(&bob, PSK, 2, now).unwrap();
    assert!(matches!(
        b.consume_init(&[1u8; 147]),
        Err(Error::InvalidLength { expected: 148, actual: 147 })
    ));
    let a = Initiator::new(&alice, bob.public(), PSK, 1, now).unwrap();
    assert!(matches!(
        a.consume_response(&[2u8; 91]),
        Err(Error::InvalidLength { expected: 92, actual: 91 })
    ));
}

#[test]
fn init_for_another_responder_does_not_decrypt() {
    let alice = Keypair::generate();
    let bob = Keypair::generate();
    let eve = Keypair::generate();
    let now = Tai64N::from_unix(1_700_000_000, 0);
    let mut a = Initiator::new(&alice, eve.public(), PSK, 1, now).unwrap();
    let mut b = Responder::new(&bob, PSK, 2, now).unwrap();
    assert!(matches!(
        b.consume_init(&a.write_init().unwrap()),
        Err(Error::Noise(NoiseFailure::Decrypt))
    ));
}

#[test]
fn handshake_messages_are_written_once() {
    let alice = Keypair::generate();
    let bob = Keypair::generate();
    let now = Tai64N::from_unix(1_700_000_000, 0);
    let mut a = Initiator::new(&alice, bob.public(), PSK, 1, now).unwrap();
    let mut b = Responder::new(&bob, PSK, 2, now).unwrap();
    let init = a.write_init().unwrap();
    assert!(matches!(
        a.write_init(),
        Err(Error::Noise(NoiseFailure::NotTurnToWrite))
    ));
    b.consume_init(&init).unwrap();
    assert!(matches!(
        b.consume_init(&init),
        Err(Error::Noise(NoiseFailure::HandshakeAlreadyFinished))
    ));
}

#[test]
fn refused_init_is_used_up() {
    let alice = Keypair::generate();
    let bob = Keypair::generate();
    let now = Tai64N::from_unix(1_700_000_000, 0);
    let mut a = Initiator::new(&alice, bob.public(), PSK, 1, now).unwrap();
    let mut b = Responder::new(&bob, PSK, 2, now).unwrap();
    let mut init = a.write_init().unwrap();
    init[140] ^= 1;
    assert!(matches!(b.consume_init(&init), Err(Error::MacInvalid)));
    init[140] ^= 1;
    assert!(matches!(
        b.consume_init(&init),
        Err(Error::Noise(NoiseFailure::NotTurnToRead))
    ));
}

#[test]
fn failed_decryption_leaves_the_responder_usable() {
    let alice = Keypair::generate();
    let bob = Keypair::generate();
    let now = Tai64N::from_unix(1_700_000_000, 0);
    let mut a = Initiator::new(&alice, bob.public(), PSK, 1, now).unwrap();
    let mut b = Responder::new(&bob, PSK, 2, now).unwrap();
    let init = a.write_init().unwrap();
    let mut bad = init;
    bad[110] ^= 1;
    assert!(matches!(
        b.consume_init(&bad),
        Err(Error::Noise(NoiseFailure::Decrypt))
    ));
    let response = b.consume_init(&init).unwrap();
    let mut at = a.consume_response(&response).unwrap();
    let mut bt = b.into_transport().unwrap();
    let mut c = [0u8; 64];
    let n = at.encrypt(b"x", 2, &mut c).unwrap();
    let mut d = [0u8; 64];
    assert_eq!(bt.decrypt(&c[..n], &mut d).unwrap(), 1);
    assert_eq!(d[0], b'x');
}

#[test]
fn unfinished_responder_has_no_session() {
    let bob = Keypair::generate();
    let now = Tai64N::from_unix(1_700_000_000, 0);
    let b = Responder::new(&bob, PSK, 2, now).unwrap();
    assert!(matches!(
        b.into_transport(),
        Err(Error::Noise(NoiseFailure::HandshakeNotFinished))
    ));
}

#[test]
fn responder_clock_can_be_set() {
    let alice = Keypair::generate();
    let bob = Keypair::generate();
    let mut a =
        Initiator::new(&alice, bob.public(), PSK, 1, Tai64N::from_unix(5_000, 0)).unwrap();
    let mut b = Responder::new(&bob, PSK, 9, Tai64N::from_unix(1, 0)).unwrap();
    assert_eq!(b.sender_id(), 9);
    assert_eq!(a.sender_id(), 1);
    b.set_current_time(Tai64N::from_unix(5_001, 0));
    assert!(b.consume_init(&a.write_init().unwrap()).is_ok());
}

#[test]
fn frames_need_room_and_the_right_size() {
    let (mut pair, _, _) = handshake_pair();
    let mut small = [0u8; 35];
    assert!(matches!(
        pair.alice_t.encrypt(b"abcd", 2, &mut small),
        Err(Error::BufferTooSmall { needed: 36, actual: 35 })
    ));
    assert_eq!(pair.alice_t.send_counter(), 0);
    let long = vec![0u8; 65520];
    let mut big = vec![0u8; 70_000];
    assert!(matches!(
        pair.alice_t.encrypt(&long, 2, &mut big),
        Err(Error::Noise(NoiseFailure::Input))
    ));
    assert_eq!(pair.alice_t.send_counter(), 1);
    let mut out = [0u8; 64];
    let n = pair.alice_t.encrypt(b"abcd", 2, &mut out).unwrap();
    assert_eq!(n, 36);
    assert_eq!(out[8], 1);
    let mut tiny = [0u8; 3];
    assert!(matches!(
        pair.bob_t.decrypt(&out[..n], &mut tiny),
        Err(Error::Noise(NoiseFailure::Decrypt))
    ));
    assert!(matches!(
        pair.bob_t.decrypt(&out[..31], &mut tiny),
        Err(Error::InvalidLength { expected: 32, actual: 31 })
    ));
    let mut fit = [0u8; 4];
    assert_eq!(pair.bob_t.decrypt(&out[..n], &mut fit).unwrap(), 4);
    assert_eq!(&fit, b"abcd");
    assert_eq!(pair.bob_t.sender_id(), 2);
}

#[test]
fn frames_out_of_step_do_not_open() {
    let (mut pair, _, _) = handshake_pair();
    let mut first = [0u8; 64];
    let mut second = [0u8; 64];
    let n = pair.alice_t.encrypt(b"one", 2, &mut first).unwrap();
    let m = pair.alice_t.encrypt(b"two", 2, &mut second).unwrap();
    let mut out = [0u8; 64];
    assert!(pair.bob_t.decrypt(&second[..m], &mut out).is_err());
    assert_eq!(pair.bob_t.decrypt(&first[..n], &mut out).unwrap(), 3);
    assert!(pair.bob_t.decrypt(&first[..n], &mut out).is_err());
    assert_eq!(pair.bob_t.decrypt(&second[..m], &mut out).unwrap(), 3);
    assert_eq!(&out[..3], b"two");
}

#[test]
fn digests_are_blake2s() {
    let empty: [u8; 32] = [
        0x69, 0x21, 0x7a, 0x30, 0x79, 0x90, 0x80, 0x94, 0xe1, 0x11, 0x21, 0xd0, 0x42, 0x35, 0x4a,
        0x7c, 0x1f, 0x55, 0xb6, 0x48, 0x2c, 0xa1, 0xa5, 0x1e, 0x1b, 0x25, 0x0d, 0xfd, 0x1e, 0xd0,
        0xee, 0xf9,
    ];
    assert_eq!(hash_bytes(&[]), empty);
    assert_eq!(hash1(&[]), empty);
    let key = [7u8; 32];
    let mut labelled = b"mac1----".to_vec();
    labelled.extend_from_slice(&key);
    assert_eq!(mac1_key(&key), hash1(&labelled));
    let mut cookie = b"cookie--".to_vec();
    cookie.extend_from_slice(&key);
    assert_eq!(cookie_key(&key), hash1(&cookie));
    assert_ne!(mac1_key(&key), cookie_key(&key));
    assert_ne!(compute_mac1(&key, b"a"), compute_mac1(&key, b"b"));
    assert_ne!(compute_mac2(&[1u8; 16], b"a"), compute_mac2(&[2u8; 16], b"a"));
}

#[test]
fn x25519_keys_follow_the_standard() {
    let secret: [u8; 32] = [
        0x77, 0x07, 0x6d, 0x0a, 0x73, 0x18, 0xa5, 0x7d, 0x3c, 0x16, 0xc1, 0x72, 0x51, 0xb2, 0x66,
        0x45, 0xdf, 0x4c, 0x2f, 0x87, 0xeb, 0xc0, 0x99, 0x2a, 0xb1, 0x77, 0xfb, 0xa5, 0x1d, 0xb9,
        0x2c, 0x2a,
    ];
    let public: [u8; 32] = [
        0x85, 0x20, 0xf0, 0x09, 0x89, 0x30, 0xa7, 0x54, 0x74, 0x8b, 0x7d, 0xdc, 0xb4, 0x3e, 0xf7,
        0x5a, 0x0d, 0xbf, 0x3a, 0x0d, 0x26, 0x38, 0x1a, 0xf4, 0xeb, 0xa4, 0xa9, 0x8e, 0xaa, 0x9b,
        0x4e, 0x6a,
    ];
    let mut k = Keypair::from_bytes(secret);
    assert_eq!(k.public(), &public);
    assert_eq!(k.secret_bytes(), secret);
    k.zeroize();
    assert_eq!(k.public(), &[0u8; 32]);
    assert_eq!(k.secret_bytes(), secret);
    assert_ne!(Keypair::generate().secret_bytes(), Keypair::generate().secret_bytes());
}

#[test]
fn ed25519_follows_the_standard() {
    let secret: [u8; 32] = [
        0x9d, 0x61, 0xb1, 0x9d, 0xef, 0xfd, 0x5a, 0x60, 0xba, 0x84, 0x4a, 0xf4, 0x92, 0xec, 0x2c,
        0xc4, 0x44, 0x49, 0xc5, 0x69, 0x7b, 0x32, 0x69, 0x19, 0x70, 0x3b, 0xac, 0x03, 0x1c, 0xae,
        0x7f, 0x60,
    ];
    let public: [u8; 32] = [
        0xd7, 0x5a, 0x98, 0x01, 0x82, 0xb1, 0x0a, 0xb7, 0xd5, 0x4b, 0xfe, 0xd3, 0xc9, 0x64, 0x07,
        0x3a, 0x0e, 0xe1, 0x72, 0xf3, 0xda, 0xa6, 0x23, 0x25, 0xaf, 0x02, 0x1a, 0x68, 0xf7, 0x07,
        0x51, 0x1a,
    ];
    let mut id = Identity::from_bytes(secret);
    assert_eq!(id.public(), public);
    let sig = id.sign(b"");
    assert_eq!(&sig[..4], &[0xe5, 0x56, 0x43, 0x00]);
    assert_eq!(id.public_base64(), "11qYAYKxCrfVS/7TyWQHOg7hcvPapiMlrwIaaPcHURo=");
    id.zeroize();
    assert_eq!(id.private_bytes(), [0u8; 32]);
    assert_eq!(id.public(), public);
    let named = Identity::from_public(public).unwrap();
    assert_eq!(named.public(), public);
    assert_eq!(named.private_bytes(), [0u8; 32]);
    let mut off_curve = [0u8; 32];
    off_curve[0] = 2;
    assert!(Identity::from_public(off_curve).is_none());
    assert!(!Identity::verify(&off_curve, b"", &sig));
}

#[test]
fn errors_speak() {
    let e = Error::InvalidLength { expected: 148, actual: 7 };
    assert_eq!(
        e.message(),
        "invalid message length: expected at least 148 bytes, got 7"
    );
    assert_eq!(
        Error::InvalidMessageType(0x0f).message(),
        "invalid message type byte: 0x0f"
    );
    assert_eq!(
        Error::Noise(NoiseFailure::Decrypt).message(),
        "noise protocol error: decrypt error"
    );
    assert_eq!(
        Error::BufferTooSmall { needed: 10, actual: 9 }.message(),
        "buffer too small: need 10 bytes, have 9"
    );
    assert_eq!(Error::MacInvalid.message(), "mac validation failed");
}
