use ysh::encryption::{generate_key, EncryptedBackend, StorageError, HEADER_SIZE, KEY_SIZE, PAGE_SIZE, ENCRYPTED_PAGE};

fn fresh(key: &[u8]) -> EncryptedBackend {
    EncryptedBackend::open(Vec::new(), key).unwrap()
}

#[test]
fn encrypt_decrypt_roundtrip() {
    let key = [42u8; KEY_SIZE];
    let mut backend = fresh(&key);
    let original = b"Hello, encrypted world!";
    backend.write(0, original).unwrap();
    let buf = backend.read(0, original.len()).unwrap();
    assert_eq!(&buf[..], original);
}

#[test]
fn different_offsets_different_nonces() {
    let key = [1u8; KEY_SIZE];
    let mut backend = fresh(&key);
    let data = b"same data same data same data!!!";
    backend.write(0, data).unwrap();
    backend.write(100, data).unwrap();
    let buf0 = backend.read(0, data.len()).unwrap();
    let buf1 = backend.read(100, data.len()).unwrap();
    assert_eq!(&buf0[..], data);
    assert_eq!(&buf1[..], data);
}

#[test]
fn wrong_key_fails() {
    let key1 = [1u8; KEY_SIZE];
    let key2 = [2u8; KEY_SIZE];
    let mut backend = fresh(&key1);
    backend.write(0, b"secret data!!").unwrap();
    let image = backend.image().clone();
    drop(backend);
    let backend2 = EncryptedBackend::open(image, &key2).unwrap();
    assert!(backend2.read(0, 13).is_err());
}

#[test]
fn key_generation_is_unique() {
    let k1 = generate_key();
    let k2 = generate_key();
    assert_ne!(k1, k2);
    assert_eq!(k1.len(), 64);
    assert!(k1.chars().all(|c| c.is_ascii_hexdigit()));
}

#[test]
fn generated_key_opens_a_new_store() {
    let k = generate_key();
    let b = EncryptedBackend::open_hex(Vec::new(), &k).unwrap();
    assert_eq!(b.len(), 0);
    assert!(EncryptedBackend::open_hex(vec![0u8; 3], &k).is_err());
}

#[test]
fn len_returns_logical_size() {
    let key = [99u8; KEY_SIZE];
    let mut backend = fresh(&key);
    assert_eq!(backend.len(), 0);
    backend.write(0, b"test").unwrap();
    assert_eq!(backend.len(), 4);
    backend.write(100, b"more data").unwrap();
    assert_eq!(backend.len(), 109);
}

#[test]
fn corrupted_data_fails_decrypt() {
    let key = [7u8; KEY_SIZE];
    let mut backend = fresh(&key);
    backend.write(0, b"real data").unwrap();
    let mut image = backend.image().clone();
    drop(backend);
    image[HEADER_SIZE + 20..HEADER_SIZE + 29].copy_from_slice(b"CORRUPTED");
    let backend2 = EncryptedBackend::open(image, &key).unwrap();
    assert!(backend2.read(0, 9).is_err());
}

#[test]
fn persistent_len_survives_reopen() {
    let key = [5u8; KEY_SIZE];
    let image = {
        let mut backend = fresh(&key);
        backend.write(0, b"hello").unwrap();
        backend.write(100, b"world").unwrap();
        assert_eq!(backend.len(), 105);
        backend.image().clone()
    };
    let backend2 = EncryptedBackend::open(image, &key).unwrap();
    assert_eq!(backend2.len(), 105);
    let buf = backend2.read(0, 5).unwrap();
    assert_eq!(&buf[..], b"hello");
}

#[test]
fn crossing_page_boundary() {
    let key = [3u8; KEY_SIZE];
    let mut backend = fresh(&key);
    let data = vec![0xABu8; 8192];
    backend.write(0, &data).unwrap();
    let buf = backend.read(0, 8192).unwrap();
    assert_eq!(buf, data);
}

#[test]
fn partial_page_read_write() {
    let key = [4u8; KEY_SIZE];
    let mut backend = fresh(&key);
    backend.write(100, b"hello").unwrap();
    let buf = backend.read(100, 5).unwrap();
    assert_eq!(&buf[..], b"hello");
    backend.write(102, b"XY").unwrap();
    let buf2 = backend.read(100, 5).unwrap();
    assert_eq!(&buf2[..], b"heXYo");
}

#[test]
fn adjacent_writes_no_overlap() {
    let key = [6u8; KEY_SIZE];
    let mut backend = fresh(&key);
    let page_a = vec![0x11u8; PAGE_SIZE];
    let page_b = vec![0x22u8; PAGE_SIZE];
    backend.write(0, &page_a).unwrap();
    backend.write(PAGE_SIZE as u64, &page_b).unwrap();
    let ra = backend.read(0, PAGE_SIZE).unwrap();
    let rb = backend.read(PAGE_SIZE as u64, PAGE_SIZE).unwrap();
    assert_eq!(ra, page_a);
    assert_eq!(rb, page_b);
}

#[test]
fn load_test_many_pages() {
    let key = [8u8; KEY_SIZE];
    let mut backend = fresh(&key);
    for i in 0..50u64 {
        let data = vec![(i % 256) as u8; PAGE_SIZE];
        backend.write(i * PAGE_SIZE as u64, &data).unwrap();
    }
    for i in 0..50u64 {
        let expected = vec![(i % 256) as u8; PAGE_SIZE];
        let buf = backend.read(i * PAGE_SIZE as u64, PAGE_SIZE).unwrap();
        assert_eq!(buf, expected, "Page {} mismatch", i);
    }
}

#[test]
fn new_image_has_header_only() {
    let backend = fresh(&[9u8; KEY_SIZE]);
    assert_eq!(backend.image().len(), HEADER_SIZE);
    assert_eq!(&backend.image()[0..8], &b"YSHENC\0\0"[..]);
}

#[test]
fn invalid_key_and_file_are_refused() {
    assert!(matches!(EncryptedBackend::open(Vec::new(), &[1u8; 16]), Err(ysh::encryption::CryptoError::InvalidKey)));
    assert!(matches!(EncryptedBackend::open(vec![0u8; 10], &[1u8; KEY_SIZE]), Err(ysh::encryption::CryptoError::Io(_))));
    assert!(matches!(EncryptedBackend::open(vec![0u8; HEADER_SIZE], &[1u8; KEY_SIZE]), Err(ysh::encryption::CryptoError::InvalidFile)));
    assert!(matches!(EncryptedBackend::open_hex(Vec::new(), "zz"), Err(ysh::encryption::CryptoError::InvalidKey)));
}

#[test]
fn hex_key_opens_the_same_image() {
    let key = [0xABu8; KEY_SIZE];
    let mut backend = fresh(&key);
    backend.write(3, b"abc").unwrap();
    let image = backend.image().clone();
    let hex_key = "ab".repeat(KEY_SIZE);
    let reopened = EncryptedBackend::open_hex(image, &hex_key).unwrap();
    assert_eq!(reopened.read(3, 3).unwrap(), b"abc".to_vec());
}

#[test]
fn pages_are_stored_sealed() {
    let key = [2u8; KEY_SIZE];
    let mut backend = fresh(&key);
    backend.write(0, &[0u8; 16]).unwrap();
    assert_eq!(backend.image().len(), HEADER_SIZE + ENCRYPTED_PAGE);
    // The stored page is not the plaintext.
    assert_ne!(&backend.image()[HEADER_SIZE..HEADER_SIZE + 16], &[0u8; 16][..]);
    let (from, to) = backend.dirty_range(0, 16);
    assert_eq!(to, HEADER_SIZE + ENCRYPTED_PAGE);
    assert!(from <= HEADER_SIZE);
}

#[test]
fn decryption_failure_is_reported() {
    let key = [1u8; KEY_SIZE];
    let mut backend = fresh(&key);
    backend.write(0, b"x").unwrap();
    let mut image = backend.image().clone();
    let last = image.len() - 1;
    image[last] ^= 1;
    let mut b2 = EncryptedBackend::open(image, &key).unwrap();
    assert_eq!(b2.read(0, 1), Err(StorageError::DecryptionFailed));
    assert_eq!(b2.write(0, b"y"), Err(StorageError::DecryptionFailed));
}
