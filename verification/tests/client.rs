use mls_engine::client::{
    handle_jsvalue_error, hash_kp, key_package_publish_error, request_creation_error,
    update_log_lines,
};
use mls_engine::key_package::KeyPackage;
use openmls_rust_crypto::RustCrypto;
use openmls_traits::crypto::OpenMlsCrypto;
use openmls_traits::types::HashType;

#[test]
fn handle_jsvalue_error_passes_success_through() {
    let res: Result<u32, String> = Ok(7);
    assert_eq!(handle_jsvalue_error(res), Ok(7));
    let res: Result<Vec<u8>, String> = Ok(vec![1, 2, 3]);
    assert_eq!(handle_jsvalue_error(res), Ok(vec![1, 2, 3]));
}

#[test]
fn handle_jsvalue_error_prefixes_the_rendering() {
    let res: Result<u32, String> = Err("JsValue(TypeError: failed to fetch)".to_string());
    assert_eq!(
        handle_jsvalue_error(res),
        Err("Error: JsValue(TypeError: failed to fetch)".to_string())
    );
    let res: Result<(), String> = Err(String::new());
    assert_eq!(handle_jsvalue_error(res), Err("Error: ".to_string()));
}

#[test]
fn request_creation_error_text() {
    assert_eq!(
        request_creation_error("JsValue(\"bad url\")"),
        "Error creating request: JsValue(\"bad url\")".to_string()
    );
}

#[test]
fn key_package_publish_error_text() {
    assert_eq!(
        key_package_publish_error("\"offline\""),
        "Error sending new key package: \"offline\"".to_string()
    );
}

#[test]
fn update_log_without_messages() {
    let lines = update_log_lines(&Vec::new());
    assert_eq!(lines, vec![" >>> Updated client :)\n".to_string(), "\n".to_string()]);
}

#[test]
fn update_log_with_messages() {
    let messages = vec!["hello".to_string(), "second line".to_string()];
    let lines = update_log_lines(&messages);
    assert_eq!(
        lines,
        vec![
            " >>> Updated client :)\n".to_string(),
            "     New messages:\n\n".to_string(),
            "         hello\n".to_string(),
            "         second line\n".to_string(),
            "\n".to_string(),
        ]
    );
}

#[test]
fn hash_kp_is_the_hash_of_the_encoding() {
    let kp = KeyPackage {
        identity: b"Alice".to_vec(),
        signature_key: vec![1; 32],
        init_key: vec![2; 32],
        signature: vec![3; 64],
    };
    let mut encoded = Vec::new();
    for field in [&kp.identity, &kp.signature_key, &kp.init_key, &kp.signature] {
        encoded.extend_from_slice(&(field.len() as u64).to_be_bytes());
        encoded.extend_from_slice(field);
    }
    assert_eq!(kp.encode(), encoded);
    let expected = RustCrypto::default().hash(HashType::Sha2_256, &encoded).expect("hash");
    assert_eq!(hash_kp(&kp), expected);
    assert_eq!(hash_kp(&kp).len(), 32);
    assert_ne!(hash_kp(&kp), encoded);
    let mut other = kp.clone();
    other.identity = b"Alicf".to_vec();
    assert_ne!(hash_kp(&other), hash_kp(&kp));
}
