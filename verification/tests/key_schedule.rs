use mls_engine::bytes::{
    append, append_prefixed, copy, copy_range, encode_list, equal, u64_be, u64_from_be, zeros,
};
use mls_engine::key_schedule::{
    derive_epoch_secrets, derive_joiner_secret, derive_secret, expand_with_label, extract,
    kdf_label, mac, secrets_from_joiner,
};
use openmls_rust_crypto::RustCrypto;
use openmls_traits::crypto::OpenMlsCrypto;
use openmls_traits::types::HashType;

fn hex(s: &str) -> Vec<u8> {
    (0..s.len() / 2).map(|i| u8::from_str_radix(&s[2 * i..2 * i + 2], 16).expect("hex")).collect()
}

#[test]
fn big_endian_numbers() {
    assert_eq!(u64_be(0), vec![0; 8]);
    assert_eq!(u64_be(0x0102_0304_0506_0708), vec![1, 2, 3, 4, 5, 6, 7, 8]);
    assert_eq!(u64_be(u64::MAX), vec![0xff; 8]);
    assert_eq!(u64_from_be(&[1, 2, 3, 4, 5, 6, 7, 8]), 0x0102_0304_0506_0708);
    assert_eq!(u64_from_be(&[0xff; 9]), u64::MAX);
    for x in [0u64, 1, 255, 256, 0xdead_beef, u64::MAX] {
        assert_eq!(u64_from_be(&u64_be(x)), x);
    }
}

#[test]
fn byte_helpers() {
    let mut v = vec![1u8, 2];
    append(&mut v, &[3, 4]);
    assert_eq!(v, vec![1, 2, 3, 4]);
    append_prefixed(&mut v, &[9, 9]);
    assert_eq!(v, vec![1, 2, 3, 4, 0, 0, 0, 0, 0, 0, 0, 2, 9, 9]);
    assert_eq!(copy(&[5, 6, 7]), vec![5, 6, 7]);
    assert_eq!(copy_range(&[5, 6, 7, 8], 1, 3), vec![6, 7]);
    assert_eq!(copy_range(&[5, 6, 7, 8], 2, 2), Vec::<u8>::new());
    assert!(equal(&[1, 2], &[1, 2]));
    assert!(!equal(&[1, 2], &[1, 3]));
    assert!(!equal(&[1, 2], &[1, 2, 3]));
    assert!(equal(&[], &[]));
    assert_eq!(zeros(3), vec![0, 0, 0]);
    assert_eq!(zeros(0), Vec::<u8>::new());
}

#[test]
fn list_encoding() {
    assert_eq!(encode_list(&vec![]), vec![0; 8]);
    assert_eq!(
        encode_list(&vec![vec![7], vec![], vec![8, 9]]),
        vec![
            0, 0, 0, 0, 0, 0, 0, 3, 0, 0, 0, 0, 0, 0, 0, 1, 7, 0, 0, 0, 0, 0, 0, 0, 0, 0, 0, 0, 0,
            0, 0, 0, 2, 8, 9
        ]
    );
}

#[test]
fn kdf_label_bytes() {
    assert_eq!(
        kdf_label(32, "joiner", b"ctx"),
        hex("000000000000002000000000000000066a6f696e65720000000000000003637478")
    );
}

#[test]
fn extract_is_hmac_sha256() {
    let salt: Vec<u8> = (0u8..13).collect();
    assert_eq!(
        extract(&salt, &[0x0b; 22]),
        hex("077709362c2e32df0ddc3f0dc47bba6390b6c73bb50f9c3122ec844ad7c2b3e5")
    );
    assert_eq!(
        mac(b"Jefe", b"what do ya want for nothing?"),
        hex("5bdcc146bf60754e6a042426089575c75a003f089d2739839dec58b964ec3843")
    );
}

#[test]
fn expand_with_label_calls_hkdf_expand_on_the_label() {
    let secret = vec![9u8; 32];
    let info = kdf_label(48, "exp", b"some context");
    let expected = RustCrypto::default()
        .hkdf_expand(HashType::Sha2_256, &secret, &info, 48)
        .expect("expand");
    let got = expand_with_label(&secret, "exp", b"some context", 48).expect("expand");
    assert_eq!(got, expected.as_slice().to_vec());
    assert_eq!(got.len(), 48);
}

#[test]
fn expand_with_label_refuses_short_keys_and_long_outputs() {
    assert_eq!(expand_with_label(&[1u8; 31], "x", b"", 32), None);
    assert_eq!(expand_with_label(&[1u8; 32], "x", b"", 8161), None);
    assert!(expand_with_label(&[1u8; 32], "x", b"", 8160).is_some());
    assert!(expand_with_label(&[1u8; 32], "x", b"", 0).is_some());
    assert!(expand_with_label(&[1u8; 64], "x", b"", 16).is_some());
}

#[test]
fn epoch_secrets_known_answer() {
    let s = derive_epoch_secrets(&[0u8; 32], &[0u8; 32], b"context");
    assert_eq!(
        s.joiner_secret,
        hex("e54273034e38a94b8a00a70371dac2440cb0984bde8b64fce85a0012f5a5306c")
    );
    assert_eq!(
        s.epoch_secret,
        hex("829ace28c10216258ad1162571084c77ce7bfb8cf7b1c883d482a474c38ba7ac")
    );
    assert_eq!(
        s.sender_data_secret,
        hex("bd6a5201f06fb075ced0022d31c59efa297ea347e3303877e18f8071c91848ed")
    );
    assert_eq!(
        s.encryption_secret,
        hex("fe143185676a089aaae032f87cd8caec3f3ed0b7e4b2459fa4bb2f774aa457a6")
    );
    assert_eq!(
        s.exporter_secret,
        hex("115acadd9db48b17aebf86e45e451dfaad0ada7c4026cb69e5810c620d672a36")
    );
    assert_eq!(
        s.confirmation_key,
        hex("c484e7dbf81e24c2de416f96f8caa34b722857c6ab572f1e2a0f7bc75962f7f9")
    );
    assert_eq!(
        s.membership_key,
        hex("7125b622454466682bf1769fe48a523d874047e9d54c204547b131cc70b37179")
    );
    assert_eq!(
        s.resumption_secret,
        hex("ec508f98f7870ee49ae20b64bf1f0907a938842d858a4238ac1f084947503b83")
    );
    assert_eq!(
        s.init_secret,
        hex("d6cf89e9a1b5cf8beb07813950231209dc344fc1d165be54855c53997e5ba5ef")
    );
}

#[test]
fn epoch_secrets_are_a_function_of_their_inputs() {
    let a = derive_epoch_secrets(&[1u8; 32], &[2u8; 32], b"ctx");
    let b = derive_epoch_secrets(&[1u8; 32], &[2u8; 32], b"ctx");
    assert_eq!(a, b);
    assert_ne!(a, derive_epoch_secrets(&[1u8; 32], &[3u8; 32], b"ctx"));
    assert_ne!(a, derive_epoch_secrets(&[0u8; 32], &[2u8; 32], b"ctx"));
    assert_ne!(a, derive_epoch_secrets(&[1u8; 32], &[2u8; 32], b"cty"));
    assert_eq!(a.duplicate(), a);
}

#[test]
fn joiner_and_committer_derive_the_same_secrets() {
    let joiner = derive_joiner_secret(&[4u8; 32], &[5u8; 32], b"group context");
    let from_joiner = secrets_from_joiner(&joiner, b"group context");
    let full = derive_epoch_secrets(&[4u8; 32], &[5u8; 32], b"group context");
    assert_eq!(from_joiner, full);
    assert_eq!(full.joiner_secret, joiner);
}

#[test]
fn derive_secret_is_a_labelled_expansion_to_32_bytes() {
    let secret = [7u8; 32];
    assert_eq!(
        derive_secret(&secret, "path"),
        hex("57294199d94bd55c01d3b4b117d6fcc6633ee38fb53242ee94780c76ca993801")
    );
    assert_eq!(
        derive_secret(&secret, "node"),
        hex("084ff9e96f82afb949ca70aacf2c7d9519c95e77a0bb365d45e86f8536c21103")
    );
    assert_eq!(
        Some(derive_secret(&secret, "path")),
        expand_with_label(&secret, "path", b"", 32)
    );
}
