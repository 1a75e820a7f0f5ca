use nixos_limine::settings::{Scalar, Setting};

fn one(setting: Setting) -> Option<Scalar> {
    match setting {
        Setting::One(value) => Some(value),
        Setting::Many(_) => None,
    }
}

#[test]
fn renders_bools_the_way_limine_spells_them() {
    assert_eq!(Scalar::Bool(true).value().as_deref(), Some("yes"));
    assert_eq!(Scalar::Bool(false).value().as_deref(), Some("no"));
}

#[test]
fn renders_numbers_and_strings_verbatim() {
    assert_eq!(Scalar::Int(5).value().as_deref(), Some("5"));
    assert_eq!(Scalar::Str("no".to_owned()).value().as_deref(), Some("no"));
}

#[test]
fn drops_nulls() {
    assert_eq!(Scalar::Null.value(), None);
}

#[test]
fn keeps_the_timeout_spellings_apart() {
    assert_eq!(
        one(Setting::One(Scalar::Int(5))).and_then(|value| value.value()).as_deref(),
        Some("5")
    );
    assert_eq!(
        one(Setting::One(Scalar::Str("no".to_owned()))).and_then(|value| value.value()).as_deref(),
        Some("no")
    );
}

#[test]
fn renders_negative_numbers_with_their_sign() {
    assert_eq!(Scalar::Int(-12).value().as_deref(), Some("-12"));
    assert_eq!(Scalar::Int(i64::MIN).value().as_deref(), Some("-9223372036854775808"));
}

#[test]
fn renders_a_fraction_as_it_was_spelled() {
    assert_eq!(Scalar::Float("0.5".to_owned()).value().as_deref(), Some("0.5"));
}

#[test]
fn only_strings_are_strings() {
    assert_eq!(Scalar::Str("/a.png".to_owned()).as_str().map(String::as_str), Some("/a.png"));
    assert_eq!(Scalar::Int(1).as_str(), None);
    assert_eq!(Scalar::Bool(true).as_str(), None);
}
