use binary_codec::SerializerConfig;

#[test]
fn a_new_state_is_empty() {
    let config = SerializerConfig::new();
    assert_eq!((config.pos, config.bits, config.discriminator), (0, 0, None));
    assert_eq!(config.get_toggle("t"), None);
    assert_eq!(config.get_length("n"), None);
    assert_eq!(config.get_variant("v"), None);
}

#[test]
fn published_values_are_found() {
    let mut config = SerializerConfig::new();
    config.set_toggle("t", true);
    config.set_length("n", 3);
    config.set_variant("v", 2);
    assert_eq!(config.get_toggle("t"), Some(true));
    assert_eq!(config.get_length("n"), Some(3));
    assert_eq!(config.get_variant("v"), Some(2));
    config.set_toggle("t", false);
    assert_eq!(config.get_toggle("t"), Some(false));
    assert_eq!(config.get_toggle("n"), None);
}

#[test]
fn a_negated_key_inverts_the_toggle() {
    let mut config = SerializerConfig::new();
    config.set_toggle("t", true);
    assert_eq!(config.get_toggle("!t"), Some(false));
    config.set_toggle("t", false);
    assert_eq!(config.get_toggle("!t"), Some(true));
    assert_eq!(config.get_toggle("!u"), None);
    assert_eq!(config.get_toggle("!"), None);
    assert_eq!(config.get_toggle(""), None);
}

#[test]
fn alignment_steps_over_a_byte_in_progress_on_read_only() {
    let mut config = SerializerConfig::new();
    config.pos = 4;
    config.bits = 3;
    assert_eq!(config.next_reset_bits_pos(), 5);
    config.reset_bits(false);
    assert_eq!((config.pos, config.bits), (4, 0));
    assert_eq!(config.next_reset_bits_pos(), 4);
    config.bits = 8;
    config.reset_bits(true);
    assert_eq!((config.pos, config.bits), (5, 0));
    config.reset_bits(true);
    assert_eq!((config.pos, config.bits), (5, 0));
}

#[test]
fn reset_keeps_what_was_published() {
    let mut config = SerializerConfig::new();
    config.set_length("n", 3);
    config.pos = 7;
    config.bits = 2;
    config.discriminator = Some(1);
    config.reset();
    assert_eq!((config.pos, config.bits, config.discriminator), (0, 0, None));
    assert_eq!(config.get_length("n"), Some(3));
}

#[test]
fn a_child_scope_inherits_nothing() {
    let mut config = SerializerConfig::new();
    config.set_toggle("t", true);
    config.pos = 7;
    config.discriminator = Some(1);
    let child = config.child_scope();
    assert_eq!((child.pos, child.bits, child.discriminator), (0, 0, None));
    assert_eq!(child.get_toggle("t"), None);
}
