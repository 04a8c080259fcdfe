use voxel_nav::chat::{format_template, FormatError, StringOrComponent, TextComponent, TranslatableComponent};

fn abcd() -> Vec<StringOrComponent> {
    vec![
        StringOrComponent::String("a".to_string()),
        StringOrComponent::String("b".to_string()),
        StringOrComponent::String("c".to_string()),
        StringOrComponent::String("d".to_string()),
    ]
}

#[test]
fn test_none() {
    let c = TranslatableComponent::new("translation.test.none".to_string(), vec![]);
    assert_eq!(c.read().unwrap().to_string(), "Hello, world!".to_string());
}

#[test]
fn test_complex() {
    let c = TranslatableComponent::new("translation.test.complex".to_string(), abcd());
    assert_eq!(
        c.read().unwrap().to_string(),
        "Prefix, ab again b and a lastly c and also a again!".to_string()
    );
}

#[test]
fn test_escape() {
    let c = TranslatableComponent::new("translation.test.escape".to_string(), abcd());
    assert_eq!(c.read().unwrap().to_string(), "%s %a %%s %%b".to_string());
}

#[test]
fn test_invalid() {
    let c = TranslatableComponent::new("translation.test.invalid".to_string(), abcd());
    assert_eq!(c.read().unwrap().to_string(), "hi %".to_string());
}

#[test]
fn test_invalid2() {
    let c = TranslatableComponent::new("translation.test.invalid2".to_string(), abcd());
    assert_eq!(c.read().unwrap().to_string(), "hi %  s".to_string());
}

#[test]
fn unknown_key_is_its_own_template() {
    let c = TranslatableComponent::new("no.such.key %s".to_string(), abcd());
    assert_eq!(c.read().unwrap().to_string(), "no.such.key a".to_string());
}

#[test]
fn known_key_is_translated() {
    let c = TranslatableComponent::new("translation.test.world".to_string(), vec![]);
    assert_eq!(c.read().unwrap().to_string(), "world".to_string());
}

#[test]
fn digit_without_dollar_is_malformed() {
    let r = format_template("x %1s", &abcd());
    assert!(matches!(r, Err(FormatError::MalformedPlaceholder)));
}

#[test]
fn positional_and_missing_arguments() {
    let r = format_template("%2$s-%9$s-%0$s-%s%s", &abcd()).unwrap();
    assert_eq!(r.to_string(), "b---ab".to_string());
    let none = format_template("[%s]", &vec![]).unwrap();
    assert_eq!(none.to_string(), "[]".to_string());
}

#[test]
fn component_argument_contributes_its_text() {
    let mut inner = TextComponent::new("x".to_string());
    inner.siblings.push("y".to_string());
    let r = format_template("<%s>", &vec![StringOrComponent::Component(inner)]).unwrap();
    assert_eq!(r.to_string(), "<xy>".to_string());
    let from = TextComponent::from(StringOrComponent::String("q".to_string()));
    assert_eq!(from.to_string(), "q".to_string());
}
