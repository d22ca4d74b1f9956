use mayberun::hash_contents;

#[test]
fn digest_of_empty_content() {
    let digest = hash_contents(&Vec::new());
    assert_eq!(
        "e3b0c44298fc1c149afbf4c8996fb92427ae41e4649b934ca495991b7852b855",
        digest
    );
}

#[test]
fn digest_of_abc() {
    let digest = hash_contents(&b"abc".to_vec());
    assert_eq!(
        "ba7816bf8f01cfea414140de5dae2223b00361a396177a9cb410ff61f20015ad",
        digest
    );
}

#[test]
fn equal_content_has_equal_digest() {
    let a = hash_contents(&b"Hello, World".to_vec());
    let b = hash_contents(&b"Hello, World".to_vec());
    assert_eq!(a, b);
}

#[test]
fn one_byte_tells_digests_apart() {
    let a = hash_contents(&b"Hello, World".to_vec());
    let b = hash_contents(&b"Hello, WorlD".to_vec());
    assert_ne!(a, b);
}
