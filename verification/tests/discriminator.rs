use sighash::discriminator::{get_hash, leading_bytes, preimage_bytes, DISCRIMINATOR_LEN, SEPARATOR};

const DIGEST_GLOBAL_INITIALIZE: [u8; 32] = [
    175, 175, 109, 31, 13, 152, 155, 237, 212, 106, 149, 7, 50, 129, 173, 194, 27, 181, 224, 225,
    215, 115, 178, 251, 189, 122, 181, 4, 205, 212, 170, 48,
];

#[test]
fn global_initialize_has_the_known_discriminator() {
    assert_eq!(get_hash("global", "initialize"), [175, 175, 109, 31, 13, 152, 155, 237]);
}

#[test]
fn preimage_is_namespace_colon_name() {
    assert_eq!(preimage_bytes("global", "initialize"), b"global:initialize".to_vec());
}

#[test]
fn preimage_has_exactly_one_separator_and_no_padding() {
    let bytes = preimage_bytes("a", "b");
    assert_eq!(bytes, vec![b'a', SEPARATOR, b'b']);
    assert_eq!(SEPARATOR, b':');
}

#[test]
fn preimage_of_empty_strings_is_the_separator() {
    assert_eq!(preimage_bytes("", ""), vec![b':']);
}

#[test]
fn preimage_holds_the_utf8_bytes() {
    assert_eq!(preimage_bytes("global", "caf\u{e9}"), b"global:caf\xc3\xa9".to_vec());
}

#[test]
fn discriminator_is_the_start_of_the_digest() {
    let head = leading_bytes(&DIGEST_GLOBAL_INITIALIZE);
    assert_eq!(head, [175, 175, 109, 31, 13, 152, 155, 237]);
    assert_eq!(head.len(), DISCRIMINATOR_LEN);
    assert_eq!(get_hash("global", "initialize"), head);
}

#[test]
fn leading_bytes_keeps_the_byte_order() {
    let mut digest = [0u8; 32];
    for (i, byte) in digest.iter_mut().enumerate() {
        *byte = i as u8 + 1;
    }
    assert_eq!(leading_bytes(&digest), [1, 2, 3, 4, 5, 6, 7, 8]);
}

#[test]
fn equal_inputs_give_equal_discriminators() {
    let first = get_hash("global", "transfer_tokens");
    let second = get_hash("global", "transfer_tokens");
    assert_eq!(first, second);
    assert_eq!(first, [54, 180, 238, 175, 74, 85, 126, 188]);
}

#[test]
fn empty_strings_have_a_discriminator() {
    assert_eq!(get_hash("", ""), [231, 172, 7, 134, 102, 142, 15, 240]);
    assert_eq!(get_hash("global", ""), [193, 76, 24, 19, 16, 206, 80, 69]);
}

#[test]
fn the_namespace_counts() {
    assert_eq!(get_hash("state", "initialize"), [125, 177, 7, 8, 193, 232, 146, 24]);
    assert_ne!(get_hash("state", "initialize"), get_hash("global", "initialize"));
}

#[test]
fn the_name_is_hashed_as_given() {
    assert_eq!(get_hash("global", "my_instruction"), [195, 241, 184, 14, 127, 155, 68, 53]);
    assert_ne!(get_hash("global", "MyInstruction"), get_hash("global", "my_instruction"));
}

#[test]
fn names_outside_ascii_are_hashed_by_their_utf8_bytes() {
    assert_eq!(get_hash("global", "caf\u{e9}"), [73, 192, 62, 241, 225, 50, 117, 162]);
}
