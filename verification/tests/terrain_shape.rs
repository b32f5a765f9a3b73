use forgia::terrain_shape::{default_false, default_schema};

#[test]
fn genome_defaults_are_schema_one_and_flags_off() {
    assert_eq!(default_schema(), 1);
    assert!(!default_false());
}
