use frozenbbs::node::hex_node;
use frozenbbs::{canonical_node_id, hex_id_to_num, num_id_to_hex};

#[test]
fn user_id_with_leading_zero() {
    assert_eq!(num_id_to_hex(0x00010203), "!00010203");
}

#[test]
fn node_ids_read_with_or_without_bang() {
    assert_eq!(hex_id_to_num("!abcdef12"), Some(0xabcdef12));
    assert_eq!(hex_id_to_num("ABCDEF12"), Some(0xabcdef12));
    assert_eq!(hex_id_to_num("!00000000"), Some(0));
    assert_eq!(hex_id_to_num("ffffffff"), Some(u32::MAX));
}

#[test]
fn node_ids_must_have_eight_hex_digits() {
    assert_eq!(hex_id_to_num("!abcdef1"), None);
    assert_eq!(hex_id_to_num("abcdef123"), None);
    assert_eq!(hex_id_to_num("!abcdefgh"), None);
    assert_eq!(hex_id_to_num(""), None);
    assert_eq!(hex_id_to_num("!!bcdef12"), None);
}

#[test]
fn canonical_ids_are_lowercase_with_bang() {
    assert_eq!(canonical_node_id("ABCDEF12"), Some("!abcdef12".to_string()));
    assert_eq!(canonical_node_id("!0000Cafe"), Some("!0000cafe".to_string()));
    assert_eq!(canonical_node_id("cafe"), None);
}

#[test]
fn hex_node_has_no_padding() {
    assert_eq!(hex_node(0x1f), "!1f");
    assert_eq!(hex_node(0), "!0");
    assert_eq!(hex_node(0xcafeb33d), "!cafeb33d");
}
