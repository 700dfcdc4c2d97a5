use mitte::agent::{acknowledgement, check_invitation, handshake_destination, invitation};
use mitte::identity::IDENTITY_FRAME_LEN;
use mitte::message::{open, MAX_MESSAGE_LEN, MESSAGE_FRAME_CAPACITY};
use mitte::{Agent, AgentDescription, MitteError, PeerDirectory, SocketAddress};
use rsa::{BigUint, RsaPrivateKey, RsaPublicKey};

const ALICE_N: &str = "9f9faa242f2a805a02d7e6fda3ed1367413e912e1e6dff60fe317a1c5da12024680653aa3f8988d8e5509410608b9922af56775d546a8293453a28c7f530059aaa7a0c545906f4332b1457d1a33ab6665ca7e7d7dac74d830cf09b9e49353a2ae9f5b7d5f258b9d7cd39ab11ce7271ce0b5a3179ad62d5d509a8283a1f33ad2ca4823271bc9704ded402f10b4987d34f24f9994e4917af117b3a068b69508d0dc1fc8becfe3190bf0205512a94746d38de485d1c6aabca2b61fd1931cf7469e31299201c6e417d3c593199b2be33874b2ceed6f96573d9d79c5550523734b3d200edcec702590199d7701dc86934073bbc6d367cf98c1e57e1901f13264c3871";
const ALICE_D: &str = "67a868f5ec873e28b5d5fd1453a2be49fc6da41bfdf8d2b1eb00b85ab956cc27b841fb8d008bd10981092dcde0d466d2c6687145736f63723daf821230204a536147b6c003bc6752df33ebbfa0af9d09a63c076bfe9014bef8e53b39b432d39e50a6980660c5cb91df9d06819ebe653737da0f6d03f2be0805a864cf31b9fe478bc1dfa2be377096e16a37b628e9f4be98c39923b35fb5b4c89bdda462c52edd5b383ebf4d68f44c7ba7c33f23df0bed9db53de424b107e64bee865a194bec3f8c49465425e4561e43c2ae579e0143bcca9ef6ae283a06f7805a0cd5f136f68706f07dac23f95568e7dd25a3e3ff0577cc3ebfce013694ddb7f43db68a2a9a1d";
const ALICE_P: &str = "cf0262c791199910a3dca959a217027eb3b0065adb6c246bb28adb030275c2d0ecc6f25247ab98206eeb32c7925ea3b455defae8fb4d72b1af730e1f9959a7ad3a9ad5d26e3aae6ffab0eafa71c221dcd8127403f6f4cfcd98bd3f07b471a7b59796e0dc3ddc9ce2ac5b9629446730f7328d9fbe4d2695354f240edc8de20aaf";
const ALICE_Q: &str = "c5666e480252293edbbe7387c2b67ac1fc289e10ad582401f3de8cd3aacf8b369e609d60eb0ef0448a29785387c70066f86ee55a831bfa8b7f5230cb6a3098b25de2e19f560bf8013381a990284015d8041a41c29daf28d3e02197695b37fbe35acdc47fae71858d094c7329ef2530ef8407846e1999427db0e3a5a7db1c36df";
const BOB_N: &str = "c35cfb00d3387934aeab148f0db6212597cfa911e2c21891bdf6c9b7f4a313a02b4b63f200ff17f854f49d9cc0324446f359d84fa9046970f7fb5830330f575f2e0dfb25881bacd1052146ca02e1fdef024f16f2653bea8c23ec74194110555fa82122313acc8535d6e194bc3edaefc8f86f9d36f7f36f0dbe6181209fcd3958573cfaaf4d3291cfce1d12bebc56ae65cb15b4f13e903fce6d06cc36c113c8915af407274b6fab72793cbeacf6c34dc7c1c3bb4f8e85383df8d723f529b1286e139f16d200e6e0cccbcaab49960e5b55feae42f2ce857ed528c1684e3a74d8f8b9e72d8586e1028256683360945c91ff0354ebf875bf543584d028ca79974605";
const BOB_D: &str = "edf3c2862ebf0a62709d505d2d8638b9613f3ddedb232e69d5c751cb0dddd379b342106a236c91f597049b34e1a4582553228ba5fb67b44634c59f94959c89ff1449532d53aae1c3754c22bccae6183595ca5f58be954c098577ebb116de9e1df4dae69aafd38c2d179d8b5bfdf30d3cebdc86d0fd1134a2b8d06a47225d0509c3bca19d41c894fea0129e901278633bf677f5686bc21896c4a0fd84fc84567ffaba834b7132f8e8a77fc6df886eddee7f92d3142875bf0d8192439f537d4efba54f2424268cbc4bbff0c0bbff8d20142279a942e8dda7101bc779e11e182d85025a8705f9d99a10be3629dab391e68f8bc5b34299819002b36528bc8ba1fe1";
const BOB_P: &str = "d9b012e8ee234b03c70bc384b54c86785d7afaa23f978185f0ca57a055619c6ed9430be499f0974b501b2290bea034f95e70a1d5612e6802740a092c4ef5b4106e8fe654d6f0a850983da4b00082ced9d5be6aa1b7ea1109c07fd06099b7cb0da77530061db8d84dfe048a111d1aacdb4290418626a980b49cf824c14e5b8dfd";
const BOB_Q: &str = "e5bf127c9fb1f7cda74330a2b3d597e0d34b41e0424fceacc27567e4e5b029599cda7ffce4b6352943605ee56b5a3ce33aa1162bbbe7e6f423f9793f1b9a3f4791034127b1943432f04a78866468cfa64793e7ed4725b7a417abb0bc71cf07276a9a308047c0e9286a04cf2d32752cebf7e9aa5e5bcc29633c61dac65871d2a9";

fn big(hex: &str) -> BigUint {
    BigUint::parse_bytes(hex.as_bytes(), 16).unwrap()
}

fn private_key(n: &str, d: &str, p: &str, q: &str) -> RsaPrivateKey {
    RsaPrivateKey::from_components(big(n), BigUint::from(65537u32), big(d), vec![big(p), big(q)])
}

fn alice_key() -> RsaPrivateKey {
    private_key(ALICE_N, ALICE_D, ALICE_P, ALICE_Q)
}

fn bob_key() -> RsaPrivateKey {
    private_key(BOB_N, BOB_D, BOB_P, BOB_Q)
}

fn public_bytes(k: &RsaPrivateKey) -> Vec<u8> {
    bincode::serialize(&RsaPublicKey::from(k)).unwrap()
}

fn local(port: u16) -> SocketAddress {
    SocketAddress::new((127, 0, 0, 1), port)
}

fn local_text(port: u16) -> String {
    format!("127.0.0.1:{}", port)
}

fn agent(name: &str, key: RsaPrivateKey, port: u16) -> Agent {
    Agent::from_key(&local_text(port), name, key).unwrap()
}

fn description(name: &str, key: &RsaPrivateKey, port: u16) -> AgentDescription {
    AgentDescription::new(&local_text(port), name, &public_bytes(key)).unwrap()
}

/// Runs a whole handshake of `initiator` with `responder`, datagram by datagram.
fn run_handshake(initiator: &mut Agent, responder: &mut Agent) -> (Result<(), MitteError>, Vec<u8>) {
    let invite = invitation();
    let ack = check_invitation(&invite).unwrap();
    let frame = initiator.introduction(&ack).unwrap();
    let reply = responder.listen(&frame).unwrap();
    let target = responder.profile().duplicate();
    (initiator.handshake(&target, &reply), reply)
}

fn format_error(reason: &str) -> MitteError {
    MitteError::DescriptionFormatError(reason.to_string())
}

#[test]
fn name_of_twenty_bytes_is_accepted() {
    let d = AgentDescription::new(&local_text(9000), "abcdefghijklmnopqrst", &public_bytes(&alice_key()));
    assert!(d.is_ok());
    assert_eq!(d.unwrap().name(), "abcdefghijklmnopqrst");
}

#[test]
fn name_of_twenty_one_bytes_is_rejected() {
    let d = AgentDescription::new(&local_text(9000), "abcdefghijklmnopqrstu", &public_bytes(&alice_key()));
    assert_eq!(d.unwrap_err(), format_error("name too long"));
}

#[test]
fn name_length_counts_bytes() {
    // ten two-byte characters fill the twenty bytes; one more does not fit
    let ten = "éééééééééé";
    assert!(AgentDescription::new(&local_text(9000), ten, &public_bytes(&alice_key())).is_ok());
    let eleven = "ééééééééééé";
    assert_eq!(
        AgentDescription::new(&local_text(9000), eleven, &public_bytes(&alice_key())).unwrap_err(),
        format_error("name too long")
    );
}

#[test]
fn unreadable_key_is_rejected() {
    let d = AgentDescription::new(&local_text(9000), "alice", &[1, 2, 3]);
    assert_eq!(d.unwrap_err(), format_error("cannot parse public key"));
}

#[test]
fn key_with_other_modulus_is_rejected() {
    let small = RsaPublicKey::new(BigUint::from(3233u32), BigUint::from(17u32)).unwrap();
    let bytes = bincode::serialize(&small).unwrap();
    let d = AgentDescription::new(&local_text(9000), "alice", &bytes);
    assert_eq!(d.unwrap_err(), format_error("cannot parse public key"));
}

#[test]
fn unreadable_address_is_rejected() {
    let key = public_bytes(&alice_key());
    let d = AgentDescription::new("127.0.0.1", "alice", &key);
    assert_eq!(d.unwrap_err(), format_error("cannot parse socket address"));
    let d = AgentDescription::new("localhost:80", "alice", &key);
    assert_eq!(d.unwrap_err(), format_error("cannot parse socket address"));
    // the name is checked before the address
    let d = AgentDescription::new("nowhere", "abcdefghijklmnopqrstu", &key);
    assert_eq!(d.unwrap_err(), format_error("name too long"));
}

#[test]
fn agent_with_bad_address_is_not_created() {
    let r = Agent::new("1.2.3.4:99999", "alice");
    assert_eq!(r.err(), Some(MitteError::AgentCreationError("cannot parse socket address".to_string())));
    let r = Agent::from_key("1.2.3.4", "alice", alice_key());
    assert_eq!(r.err(), Some(MitteError::AgentCreationError("cannot parse socket address".to_string())));
}

#[test]
fn agent_with_unaccepted_key_is_not_created() {
    let small = RsaPrivateKey::from_components(
        BigUint::from(3233u32),
        BigUint::from(17u32),
        BigUint::from(413u32),
        vec![BigUint::from(61u32), BigUint::from(53u32)],
    );
    let r = Agent::from_key("127.0.0.1:9000", "alice", small);
    assert_eq!(r.err(), Some(MitteError::AgentCreationError("cannot parse public key".to_string())));
}

#[test]
fn description_clone_keeps_record() {
    let d = description("alice", &alice_key(), 4242);
    let c = d.clone();
    assert_eq!(c.address(), d.address());
    assert_eq!(c.serialize(), d.serialize());
}

#[test]
fn agent_profile_carries_address_and_name() {
    let a = Agent::from_key("0.0.0.0:9521", "whato aa o asonethua", alice_key()).unwrap();
    assert_eq!(a.profile().address(), Some(SocketAddress::new((0, 0, 0, 0), 9521)));
    assert_eq!(a.profile().name(), "whato aa o asonethua");
    assert_eq!(a.profile().key(), &public_bytes(&alice_key())[..]);
    assert_eq!(a.peers().len(), 0);
}

#[test]
fn key_encoding_too_long_for_frame_is_rejected() {
    // a modulus of 2048 bits with an exponent of ten 32-bit digits
    let n = RsaPublicKey::from(&alice_key());
    let mut n_digits: Vec<u32> = bincode::deserialize::<(Vec<u32>, Vec<u32>)>(&bincode::serialize(&n).unwrap())
        .unwrap()
        .0;
    n_digits.truncate(64);
    let e_digits: Vec<u32> = vec![1; 10];
    let bytes = bincode::serialize(&(n_digits, e_digits)).unwrap();
    let d = AgentDescription::new(&local_text(9000), "alice", &bytes);
    assert_eq!(d.unwrap_err(), format_error("cannot parse public key"));
}

#[test]
fn key_is_kept_without_trailing_bytes() {
    let mut bytes = public_bytes(&alice_key());
    let exact = bytes.clone();
    bytes.extend_from_slice(&[9, 9, 9]);
    let d = AgentDescription::new(&local_text(9000), "alice", &bytes).unwrap();
    assert_eq!(d.key(), &exact[..]);
}

#[test]
fn frame_has_fixed_length() {
    for name in ["", "a", "abcdefghijklmnopqrst"] {
        let d = description(name, &alice_key(), 9000);
        assert_eq!(d.serialize().len(), IDENTITY_FRAME_LEN);
    }
}

#[test]
fn frame_is_bincode_layout_padded() {
    let key = alice_key();
    let d = description("ab", &key, 9521);
    let mut expected = bincode::serialize(&(
        Some(([127u8, 0, 0, 1], 9521u16)),
        RsaPublicKey::from(&key),
        String::from("ab"),
    ))
    .unwrap();
    expected.resize(IDENTITY_FRAME_LEN, 0);
    let frame = d.serialize();
    assert_eq!(frame, expected);
    assert_eq!(&frame[..7], &[1, 127, 0, 0, 1, 0x31, 0x25]);
}

#[test]
fn frame_round_trip_keeps_record() {
    let d = description("alice", &alice_key(), 4242);
    let back = AgentDescription::deserialize(&d.serialize()).unwrap();
    assert!(back.same_identity(&d));
    assert!(back == d);
    assert_eq!(back.address(), Some(local(4242)));
    assert_eq!(back.name(), "alice");
    assert_eq!(back.key(), d.key());
}

#[test]
fn frame_round_trip_with_multibyte_name() {
    let d = description("José", &bob_key(), 1);
    let back = AgentDescription::deserialize(&d.serialize()).unwrap();
    assert_eq!(back.name(), "José");
    assert_eq!(back.address(), Some(local(1)));
}

#[test]
fn malformed_frames_are_rejected() {
    let d = description("alice", &alice_key(), 4242);
    let frame = d.serialize();
    let malformed = format_error("malformed description");

    assert_eq!(AgentDescription::deserialize(&[]).unwrap_err(), malformed);
    let mut bad_tag = frame.clone();
    bad_tag[0] = 2;
    assert_eq!(AgentDescription::deserialize(&bad_tag).unwrap_err(), malformed);
    assert_eq!(AgentDescription::deserialize(&frame[..100]).unwrap_err(), malformed);
    assert_eq!(AgentDescription::deserialize(&[0u8; IDENTITY_FRAME_LEN]).unwrap_err(), malformed);

    let name_at = 7 + d.key().len();
    let mut long_name = frame.clone();
    long_name[name_at] = 21;
    assert_eq!(AgentDescription::deserialize(&long_name).unwrap_err(), malformed);
    let mut bad_utf8 = frame.clone();
    bad_utf8[name_at + 8] = 0xff;
    assert_eq!(AgentDescription::deserialize(&bad_utf8).unwrap_err(), malformed);
}

#[test]
fn identity_ignores_address() {
    let a = description("alice", &alice_key(), 1);
    let b = description("alice", &alice_key(), 2);
    let c = description("alicia", &alice_key(), 1);
    let d = description("alice", &bob_key(), 1);
    assert!(a.same_identity(&b));
    assert!(a == b);
    assert!(!a.same_identity(&c));
    assert!(!a.same_identity(&d));
}

#[test]
fn upsert_replaces_same_identity() {
    let mut peers = PeerDirectory::new();
    assert_eq!(peers.upsert(description("alice", &alice_key(), 1)), None);
    assert_eq!(peers.upsert(description("bob", &bob_key(), 2)), None);
    assert_eq!(peers.len(), 2);
    assert_eq!(peers.upsert(description("alice", &alice_key(), 3)), Some(0));
    assert_eq!(peers.len(), 2);
    assert_eq!(peers.get(0).name(), "bob");
    assert_eq!(peers.get(1).name(), "alice");
    assert_eq!(peers.get(1).address(), Some(local(3)));
}

#[test]
fn upsert_appends_new_identity() {
    let mut peers = PeerDirectory::new();
    peers.upsert(description("alice", &alice_key(), 1));
    assert_eq!(peers.upsert(description("alice", &bob_key(), 1)), None);
    assert_eq!(peers.len(), 2);
    assert!(peers.contains(&description("alice", &bob_key(), 7)));
    assert_eq!(peers.find_by_name("alice"), Some(0));
    assert_eq!(peers.find_by_name("carol"), None);
}

#[test]
fn agent_with_long_name_is_not_created() {
    let r = Agent::new("127.0.0.1:9000", "abcdefghijklmnopqrstu");
    assert_eq!(r.err(), Some(MitteError::AgentCreationError("name too long".to_string())));
}

#[test]
fn handshake_succeeds_and_records_both_sides() {
    let mut alice = agent("alice", alice_key(), 7001);
    let mut bob = agent("bob", bob_key(), 7002);
    let (r, reply) = run_handshake(&mut alice, &mut bob);
    assert_eq!(reply, vec![1, 1, 1, 1]);
    assert_eq!(r, Ok(()));
    assert_eq!(alice.peers().len(), 1);
    assert_eq!(alice.peers().get(0).name(), "bob");
    assert_eq!(bob.peers().len(), 1);
    assert_eq!(bob.peers().get(0).name(), "alice");
    assert_eq!(bob.peers().get(0).address(), Some(local(7001)));

    let (again, reply) = run_handshake(&mut alice, &mut bob);
    assert_eq!(reply, vec![1, 1, 0, 1]);
    assert_eq!(again, Ok(()));
    assert_eq!(alice.peers().len(), 1);
    assert_eq!(bob.peers().len(), 1);
}

#[test]
fn handshake_rejected_leaves_directory() {
    let mut alice = agent("alice", alice_key(), 7001);
    let bob = description("bob", &bob_key(), 7002);
    let r = alice.handshake(&bob, &[1, 0, 1, 1]);
    assert_eq!(r, Err(MitteError::HandshakeError("handshake rejected".to_string())));
    assert_eq!(alice.peers().len(), 0);
}

#[test]
fn handshake_bad_padding_is_unacknowledged() {
    let mut alice = agent("alice", alice_key(), 7001);
    let bob = description("bob", &bob_key(), 7002);
    let unack = Err(MitteError::HandshakeError("handshake unacknowledged".to_string()));
    assert_eq!(alice.handshake(&bob, &[0, 1, 1, 1]), unack);
    assert_eq!(alice.handshake(&bob, &[1, 1, 1, 0]), unack);
    assert_eq!(alice.handshake(&bob, &[1, 1, 1]), unack);
    assert_eq!(alice.peers().len(), 0);
}

#[test]
fn handshake_inconsistent_state_is_malformed() {
    let mut alice = agent("alice", alice_key(), 7001);
    let bob = description("bob", &bob_key(), 7002);
    let malformed = Err(MitteError::HandshakeError("handshake connection malformed".to_string()));
    // bob says alice is known to him, but alice has never met bob
    assert_eq!(alice.handshake(&bob, &[1, 1, 0, 1]), malformed);
    assert_eq!(alice.handshake(&bob, &[1, 1, 1, 1]), Ok(()));
    // bob says alice is new, but alice has met bob before
    assert_eq!(alice.handshake(&bob, &[1, 1, 1, 1]), malformed);
    assert_eq!(alice.peers().len(), 1);
}

#[test]
fn introduction_needs_acknowledgement() {
    let alice = agent("alice", alice_key(), 7001);
    assert_eq!(
        alice.introduction(&[8, 8, 8, 8, 8, 8, 8, 0]),
        Err(MitteError::HandshakeError("handshake unacknowledged".to_string()))
    );
    let frame = alice.introduction(&acknowledgement()).unwrap();
    assert_eq!(frame, alice.profile().serialize());
}

#[test]
fn listen_rejects_frame_without_address() {
    let mut bob = agent("bob", bob_key(), 7002);
    let key = alice_key();
    let mut frame = bincode::serialize(&(None::<([u8; 4], u16)>, RsaPublicKey::from(&key), "alice"))
        .unwrap();
    frame.resize(IDENTITY_FRAME_LEN, 0);
    assert_eq!(
        bob.listen(&frame),
        Err(MitteError::ListenError("peer did not send address".to_string()))
    );
    assert_eq!(
        bob.listen(&[7u8; IDENTITY_FRAME_LEN]),
        Err(MitteError::ListenError("malformed description".to_string()))
    );
    assert_eq!(bob.peers().len(), 0);
}

#[test]
fn destination_is_target_address() {
    let bob = description("bob", &bob_key(), 7002);
    assert_eq!(handshake_destination(&bob), Ok(local(7002)));
}

#[test]
fn message_round_trip() {
    let mut alice = agent("alice", alice_key(), 7001);
    let mut bob = agent("bob", bob_key(), 7002);
    run_handshake(&mut alice, &mut bob).0.unwrap();
    for msg in [&b""[..], &b"hewo"[..], &[5u8; MAX_MESSAGE_LEN][..]] {
        let (to, frame) = alice.send_message(msg, "bob").unwrap();
        assert_eq!(to, local(7002));
        assert_eq!(frame.len(), MESSAGE_FRAME_CAPACITY);
        assert_eq!(&frame[..4], &[0, 0, 1, 0]);
        assert_ne!(&frame[4..], msg);
        assert_eq!(bob.recv_message(&frame).unwrap(), msg.to_vec());
    }
    let (to, frame) = bob.send_message(b"back", "alice").unwrap();
    assert_eq!(to, local(7001));
    assert_eq!(alice.recv_message(&frame).unwrap(), b"back".to_vec());
}

#[test]
fn tampered_ciphertext_is_not_received() {
    let mut alice = agent("alice", alice_key(), 7001);
    let mut bob = agent("bob", bob_key(), 7002);
    run_handshake(&mut alice, &mut bob).0.unwrap();
    let (_, mut frame) = alice.send_message(b"hewo", "bob").unwrap();
    frame[4] ^= 0x80;
    assert_eq!(
        bob.recv_message(&frame),
        Err(MitteError::ReceiveError("decryption error".to_string()))
    );
}

#[test]
fn message_for_wrong_key_is_not_received() {
    let mut alice = agent("alice", alice_key(), 7001);
    let mut bob = agent("bob", bob_key(), 7002);
    run_handshake(&mut alice, &mut bob).0.unwrap();
    let (_, frame) = alice.send_message(b"hewo", "bob").unwrap();
    assert!(alice.recv_message(&frame).is_err());
}

#[test]
fn oversized_message_is_refused() {
    let mut alice = agent("alice", alice_key(), 7001);
    let mut bob = agent("bob", bob_key(), 7002);
    run_handshake(&mut alice, &mut bob).0.unwrap();
    let r = alice.send_message(&[1u8; MAX_MESSAGE_LEN + 1], "bob");
    assert_eq!(r, Err(MitteError::SendError("message too long".to_string())));
    let r = alice.send_message(&[1u8; 512], "bob");
    assert_eq!(r, Err(MitteError::SendError("message too long".to_string())));
}

#[test]
fn unknown_peer_is_reported_before_length() {
    let alice = agent("alice", alice_key(), 7001);
    let r = alice.send_message(&[1u8; 512], "carol");
    assert_eq!(r, Err(MitteError::SendError("name is not in peers list".to_string())));
}

#[test]
fn peer_with_refused_exponent_cannot_be_written_to() {
    // a modulus of 2048 bits with the exponent 1, which rsa refuses
    let n = RsaPublicKey::from(&bob_key());
    let n_digits: Vec<u32> = bincode::deserialize::<(Vec<u32>, Vec<u32>)>(&bincode::serialize(&n).unwrap())
        .unwrap()
        .0;
    let bytes = bincode::serialize(&(n_digits, vec![1u32])).unwrap();
    let odd = AgentDescription::new(&local_text(7002), "odd", &bytes).unwrap();
    let mut alice = agent("alice", alice_key(), 7001);
    alice.handshake(&odd, &[1, 1, 1, 1]).unwrap();
    assert_eq!(
        alice.send_message(b"hewo", "odd"),
        Err(MitteError::SendError("encryption failed".to_string()))
    );
}

#[test]
fn message_to_unknown_peer_is_refused() {
    let alice = agent("alice", alice_key(), 7001);
    assert_eq!(
        alice.send_message(b"hewo", "bob"),
        Err(MitteError::SendError("name is not in peers list".to_string()))
    );
}

#[test]
fn truncated_frame_is_not_received() {
    let bob = agent("bob", bob_key(), 7002);
    assert_eq!(
        bob.recv_message(&[0, 0, 1, 0, 1, 2, 3]),
        Err(MitteError::ReceiveError("truncated message".to_string()))
    );
    assert_eq!(
        bob.recv_message(&[1, 0, 0, 0]),
        Err(MitteError::ReceiveError("incorrect setup values".to_string()))
    );
    assert_eq!(open(&[0, 0, 0, 0]), Ok(vec![]));
}
