use aes::cipher::{AsyncStreamCipher, KeyIvInit};
use airi_protocol::auth::{
    minecraft_hex_digest, server_hash, twos_compliment, AuthError, Cape, Profile,
    ProfileResponse, Skin,
};
use airi_protocol::connection::{CipherState, DecryptorCore, EncryptorCore, WriteZero};

#[test]
fn server_hashes_of_known_names() {
    assert_eq!(server_hash("Notch", &[], &[]), "4ed1f46bbe04bc756bcb17c0c7ce3e4632f06a48");
    assert_eq!(server_hash("jeb_", &[], &[]), "-7c9d5b0044c130109a5d7b5fb5c317c02b4e28c1");
    assert_eq!(server_hash("simon", &[], &[]), "88e16a1019277b15d58faf0541e11910eb756f6");
}

#[test]
fn server_hash_digests_all_three_parts_in_order() {
    assert_eq!(server_hash("No", b"tc", b"h"), server_hash("Notch", &[], &[]));
    assert_ne!(server_hash("Notch", b"x", &[]), server_hash("Notch", &[], &[]));
}

#[test]
fn twos_complement_in_place() {
    let mut d = [0x00, 0x01];
    twos_compliment(&mut d);
    assert_eq!(d, [0xff, 0xff]);
    let mut d = [0x80, 0x00];
    twos_compliment(&mut d);
    assert_eq!(d, [0x80, 0x00]);
    let mut d = [0x00, 0x00];
    twos_compliment(&mut d);
    assert_eq!(d, [0x00, 0x00]);
    let mut d = [0xff];
    twos_compliment(&mut d);
    assert_eq!(d, [0x01]);
    let mut e: [u8; 0] = [];
    twos_compliment(&mut e);
}

#[test]
fn twos_complement_twice_is_the_identity() {
    let orig = [0x12, 0x34, 0xab, 0x00];
    let mut d = orig;
    twos_compliment(&mut d);
    twos_compliment(&mut d);
    assert_eq!(d, orig);
}

#[test]
fn hex_digests_drop_leading_zeros_and_sign() {
    assert_eq!(minecraft_hex_digest(&[0x00, 0x10]), "10");
    assert_eq!(minecraft_hex_digest(&[0x0a, 0xbc]), "abc");
    assert_eq!(minecraft_hex_digest(&[0xff]), "-1");
    assert_eq!(minecraft_hex_digest(&[0x80, 0x00]), "-8000");
    assert_eq!(minecraft_hex_digest(&[0x00, 0x00]), "");
    assert_eq!(minecraft_hex_digest(&[]), "");
}

#[test]
fn userhashes_must_agree() {
    assert!(Profile::check_userhashes("abc", "abc").is_ok());
    assert!(matches!(
        Profile::check_userhashes("abc", "abd"),
        Err(AuthError::UserhashDoesntMatch)
    ));
}

#[test]
fn join_answers() {
    assert!(Profile::join_response(204, None, None).is_ok());
    assert!(matches!(
        Profile::join_response(403, Some("Forbidden"), None),
        Err(AuthError::Forbidden)
    ));
    match Profile::join_response(403, Some("UserBannedException"), Some("banned".to_string())) {
        Err(AuthError::Banned(m)) => assert_eq!(m, "banned"),
        other => panic!("unexpected {:?}", other),
    }
    assert!(matches!(
        Profile::join_response(403, Some("InsufficientPrivilegesException"), None),
        Err(AuthError::InsufficientPrivileges)
    ));
}

#[test]
fn xsts_answers() {
    let ok = Profile::xsts_response(200, Some("tok".to_string()), Some("uh".to_string()), None);
    assert_eq!(ok.unwrap(), ("tok".to_string(), "uh".to_string()));
    match Profile::xsts_response(401, None, None, Some(2148916233)) {
        Err(AuthError::XSTSFailure(m)) => assert_eq!(m, "Xerr error code: 2148916233"),
        other => panic!("unexpected {:?}", other),
    }
    match Profile::xsts_response(403, None, None, Some(-5)) {
        Err(AuthError::XSTSFailure(m)) => assert_eq!(m, "Xerr error code: -5"),
        other => panic!("unexpected {:?}", other),
    }
    match Profile::xsts_response(403, None, None, Some(i64::MIN)) {
        Err(AuthError::XSTSFailure(m)) => assert_eq!(m, "Xerr error code: -9223372036854775808"),
        other => panic!("unexpected {:?}", other),
    }
}

#[test]
fn profile_answers() {
    assert!(Profile::profile_status(200).is_ok());
    assert!(matches!(Profile::profile_status(404), Err(AuthError::InvalidMCAccessToken)));
}

#[test]
fn profiles_keep_their_parts() {
    let skin = Skin::new(
        "id".to_string(),
        "ACTIVE".to_string(),
        "http://s".to_string(),
        "CLASSIC".to_string(),
        "".to_string(),
    );
    let cape = Cape::new(
        "c".to_string(),
        "ACTIVE".to_string(),
        "http://c".to_string(),
        "x".to_string(),
    );
    let resp = ProfileResponse::new(
        "0123abcd".to_string(),
        "bot".to_string(),
        vec![skin],
        vec![cape],
    );
    assert_eq!(resp.uuid_text(), "0123abcd");
    let profile = Profile::from_parts("token".to_string(), resp);
    assert_eq!(profile.mc_access_token(), "token");
    assert_eq!(profile.mc_profile().uuid_text(), "0123abcd");
    let resp = ProfileResponse::new(
        profile.mc_profile().uuid_text().clone(),
        "bot".to_string(),
        vec![],
        vec![],
    );
    let (uuid, name, skins, capes) = resp.into_parts();
    assert_eq!(uuid, "0123abcd");
    assert_eq!(name, "bot");
    assert!(skins.is_empty() && capes.is_empty());
    let (id, state, url, variant, alias) = Skin::new(
        "a".to_string(),
        "b".to_string(),
        "c".to_string(),
        "d".to_string(),
        "e".to_string(),
    )
    .into_parts();
    assert_eq!((id, state, url, variant, alias), (
        "a".to_string(),
        "b".to_string(),
        "c".to_string(),
        "d".to_string(),
        "e".to_string()
    ));
    let (id, state, url, alias) =
        Cape::new("a".to_string(), "b".to_string(), "c".to_string(), "e".to_string()).into_parts();
    assert_eq!((id, state, url, alias), (
        "a".to_string(),
        "b".to_string(),
        "c".to_string(),
        "e".to_string()
    ));
}

fn reference_encrypt(key: &[u8; 16], data: &[u8]) -> Vec<u8> {
    let mut out = data.to_vec();
    cfb8::Encryptor::<aes::Aes128>::new_from_slices(key, key).unwrap().encrypt(&mut out);
    out
}

#[test]
fn cipher_matches_aes_cfb8() {
    let key = [7u8; 16];
    let mut c = CipherState::new(&key);
    let ct = c.encrypt(b"hello world");
    assert_eq!(ct, reference_encrypt(&key, b"hello world"));
    assert_ne!(ct, b"hello world".to_vec());
}

#[test]
fn cipher_state_continues_across_writes() {
    let key = [0x42u8; 16];
    let mut c = CipherState::new(&key);
    let mut ct = c.encrypt(b"hel");
    ct.extend(c.encrypt(b""));
    ct.extend(c.encrypt(b"lo, this is more than sixteen bytes of text"));
    assert_eq!(ct, reference_encrypt(&key, b"hello, this is more than sixteen bytes of text"));
}

#[test]
fn decryptor_recovers_what_was_encrypted() {
    let key = [1u8; 16];
    let mut enc = CipherState::new(&key);
    let mut dec = DecryptorCore::new(&key);
    let a = enc.encrypt(b"first part");
    let b = enc.encrypt(b"second, longer part of the stream");
    assert_eq!(dec.decrypt(&a), b"first part".to_vec());
    assert_eq!(dec.decrypt(&b), b"second, longer part of the stream".to_vec());
    let mut c = CipherState::new(&key);
    assert_eq!(c.decrypt(&a), b"first part".to_vec());
}

#[test]
fn encryptor_hands_out_ciphertext_in_order() {
    let key = [9u8; 16];
    let mut core = EncryptorCore::new(&key);
    assert!(!core.has_unsent());
    core.start_write(b"");
    assert!(!core.has_unsent());
    core.start_write(b"abc");
    let ct = reference_encrypt(&key, b"abc");
    assert!(core.has_unsent());
    assert_eq!(core.unsent_bytes(), &ct[..]);
    core.record_first_write(1);
    assert_eq!(core.unsent_bytes(), &ct[1..]);
    assert_eq!(core.record_written(0), Err(WriteZero));
    assert_eq!(core.unsent_bytes(), &ct[1..]);
    assert_eq!(core.record_written(2), Ok(()));
    assert!(!core.has_unsent());
    core.start_write(b"de");
    let all = reference_encrypt(&key, b"abcde");
    assert_eq!(core.unsent_bytes(), &all[3..]);
}

#[test]
fn async_encryptor_hands_out_ciphertext_in_order() {
    let key = [9u8; 16];
    let mut core = EncryptorCore::new(&key);
    core.start_write_async(b"abc");
    core.record_first_write_async(3);
    assert!(!core.has_unsent());
    core.start_write_async(b"de");
    let all = reference_encrypt(&key, b"abcde");
    assert_eq!(core.unsent_bytes(), &all[3..]);
    core.record_first_write_async(1);
    assert_eq!(core.unsent_bytes(), &all[4..]);
    assert_eq!(core.record_written(1), Ok(()));
    assert!(!core.has_unsent());
}

#[test]
fn partial_writes_deliver_the_encryption_of_the_whole_stream() {
    let key = [0x5au8; 16];
    let mut core = EncryptorCore::new(&key);
    let mut delivered: Vec<u8> = Vec::new();
    let writes: [&[u8]; 3] = [b"a first chunk", b"then a second, longer one", b"end"];
    for buf in writes {
        core.start_write_async(buf);
        let first = core.pending_bytes().len() / 2;
        delivered.extend_from_slice(&core.pending_bytes()[..first]);
        core.record_first_write_async(first);
        while core.has_unsent() {
            let unsent = core.unsent_bytes().to_vec();
            let n = 1 + unsent.len() / 3;
            delivered.extend_from_slice(&unsent[..n]);
            assert_eq!(core.record_written(n), Ok(()));
        }
    }
    let all: Vec<u8> = writes.concat();
    assert_eq!(delivered, reference_encrypt(&key, &all));
    let mut dec = DecryptorCore::new(&key);
    assert_eq!(dec.decrypt(&delivered), all);
}
