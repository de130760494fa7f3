use codegen::murmurhash2;

#[test]
fn murmurhash2_of_empty_key() {
    assert_eq!(murmurhash2(&[]), 0x20e4cb44);
}

#[test]
fn murmurhash2_of_tail_only_keys() {
    assert_eq!(murmurhash2(&[0]), 0xb9f6c369);
    assert_eq!(murmurhash2(&[1, 2]), 0xc384a156);
    assert_eq!(murmurhash2(&[1, 2, 3]), 0x0efba025);
}

#[test]
fn murmurhash2_of_whole_blocks() {
    assert_eq!(murmurhash2(&[1, 2, 3, 4]), 0xeba1d925);
}

#[test]
fn murmurhash2_of_blocks_and_tail() {
    assert_eq!(murmurhash2(b"hello"), 0x7f647da7);
    assert_eq!(murmurhash2(&[0, 0, 0, 0, 3, 0]), 0xcccdbe0f);
    assert_eq!(murmurhash2(&[1, 0, 2, 0, 5, 0]), 0xdc144277);
    assert_eq!(murmurhash2(b"The quick brown fox"), 0x09bd5ffe);
}

#[test]
fn murmurhash2_reads_blocks_little_endian() {
    // A block read in the other byte order would hash differently.
    assert_ne!(murmurhash2(&[1, 2, 3, 4]), murmurhash2(&[4, 3, 2, 1]));
}
