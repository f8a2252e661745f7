use signia::error::ErrorKind;
use signia::hashing::hash_bytes_hex;
use signia::store::MemStore;

#[test]
fn put_get_by_content_address() {
    let mut store = MemStore::new();
    let id = store.put_bytes(b"hello".to_vec());
    assert_eq!(id, hash_bytes_hex(b"hello"));
    assert_eq!(store.get_bytes(&id).unwrap(), b"hello".to_vec());
    let again = store.put_bytes(b"hello".to_vec());
    assert_eq!(again, id);
    assert_eq!(store.objects.len(), 1);
    let missing = store.get_bytes(&hash_bytes_hex(b"other")).unwrap_err();
    assert_eq!(missing.kind, ErrorKind::NotFound);
}
