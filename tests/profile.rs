use ffremote::profile::{
    derive_profile, holds_foreign, profile_from_decoded, substitute_padding, Profile,
};

#[test]
fn profile_decodes_plain_base64() {
    let p = derive_profile("dGVzdA==");
    assert!(matches!(&p, Profile::Decoded(s) if s == "test"));
    assert_eq!(p.into_text(), "test");
}

#[test]
fn profile_decodes_after_underscore_substitution() {
    let p = derive_profile("dGVzdA__");
    assert!(matches!(&p, Profile::Decoded(s) if s == "test"));
}

#[test]
fn profile_falls_back_on_plus_and_slash() {
    let p = derive_profile("ab+/");
    assert!(matches!(&p, Profile::Fallback(s) if s == "ab+/"));
    let q = derive_profile("a+b/c");
    assert_eq!(q.into_text(), "a+b/c");
}

#[test]
fn profile_falls_back_on_dash() {
    let p = derive_profile("dGV-zdA");
    assert!(matches!(&p, Profile::Fallback(s) if s == "dGV-zdA"));
}

#[test]
fn profile_from_decoded_branches() {
    let ok = profile_from_decoded("id", Some(b"name".to_vec()));
    assert!(matches!(&ok, Profile::Decoded(s) if s == "name"));
    let not_text = profile_from_decoded("id", Some(vec![0xff, 0xfe]));
    assert!(matches!(&not_text, Profile::Fallback(s) if s == "id"));
    let none = profile_from_decoded("id", None);
    assert!(matches!(&none, Profile::Fallback(s) if s == "id"));
}

#[test]
fn padding_substitution() {
    assert_eq!(substitute_padding(b"a_b__"), b"a=b==".to_vec());
    assert_eq!(substitute_padding(b""), Vec::<u8>::new());
}

#[test]
fn profile_falls_back_on_decodable_slash() {
    let p = derive_profile("Pz8/");
    assert!(matches!(&p, Profile::Fallback(s) if s == "Pz8/"));
    let q = derive_profile("Pz8+");
    assert!(matches!(&q, Profile::Fallback(s) if s == "Pz8+"));
}

#[test]
fn foreign_characters_detected() {
    assert!(holds_foreign("a+b"));
    assert!(holds_foreign("a-b"));
    assert!(holds_foreign("a/b"));
    assert!(!holds_foreign("dGVzdA__"));
    assert!(!holds_foreign(""));
}
