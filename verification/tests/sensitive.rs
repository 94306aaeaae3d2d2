use clipy_rs::sensitive::looks_sensitive;

#[test]
fn detects_obvious_secret_markers() {
    assert!(looks_sensitive("password = hunter2"));
    assert!(looks_sensitive("Authorization: Bearer abc.def.ghi"));
}

#[test]
fn detects_luhn_card_number() {
    assert!(looks_sensitive("4111111111111111"));
}

#[test]
fn ignores_normal_text() {
    assert!(!looks_sensitive("meeting notes for the clipboard manager"));
}
