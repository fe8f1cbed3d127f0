use rna::{DecodeError, Namespace};

#[test]
fn decode_namespace_with_prefix() {
    assert_eq!(
        Namespace::decode("boomber:test").unwrap(),
        Namespace { prefix: String::from("boomber"), suffix: String::from("test") }
    );
}

#[test]
#[should_panic]
fn panic_on_invalid_namespace() {
    Namespace::decode("this:namespace:IS invalid").unwrap();
}

#[test]
fn decode_namespace_without_prefix() {
    assert_eq!(
        Namespace::decode("no_prefix").unwrap(),
        Namespace { prefix: String::from("minecraft"), suffix: String::from("no_prefix") }
    );
}

#[test]
#[should_panic]
fn panic_on_invalid_namespace_without_prefix() {
    Namespace::decode("This Namespace Is Not Valid").unwrap();
}

#[test]
fn decode_round_trip_example() {
    assert_eq!(
        Namespace::decode("boomber:hello_world").unwrap(),
        Namespace::new("boomber", "hello_world")
    );
}

#[test]
fn decode_rejects_too_many_colons() {
    assert_eq!(
        Namespace::decode("a:b:c"),
        Err(DecodeError::TooManyColons(String::from("a:b:c")))
    );
}

#[test]
fn decode_rejects_invalid_character() {
    assert_eq!(
        Namespace::decode("UPPER"),
        Err(DecodeError::InvalidNamespace(String::from("UPPER")))
    );
}

#[test]
fn decode_rejects_empty_string() {
    assert_eq!(
        Namespace::decode(""),
        Err(DecodeError::InvalidNamespace(String::new()))
    );
}

#[test]
fn decode_lone_colon_splits_into_empty_parts() {
    assert_eq!(Namespace::decode(":").unwrap(), Namespace::new("", ""));
}

#[test]
fn decode_keeps_path_like_suffix() {
    assert_eq!(
        Namespace::decode("minecraft:entities/creeper").unwrap(),
        Namespace::new("minecraft", "entities/creeper")
    );
}
