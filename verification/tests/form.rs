use rstrf::form::{Field, Form, Message};

fn login() -> Form {
    Form::new(
        vec![
            ("Username".into(), Field::Text(String::new())),
            ("Password".into(), Field::Password(String::new())),
        ],
        "Log in".into(),
    )
}

#[test]
fn updates_replace_field_text() {
    let mut f = login();
    f.update(Message::UpdateField(0, "user@example.com".into()));
    f.update(Message::UpdateField(1, "s3cr3t_password".into()));
    assert_eq!(f.field_values(), vec!["user@example.com".to_string(), "s3cr3t_password".to_string()]);
}

#[test]
fn out_of_range_update_and_submit_change_nothing() {
    let mut f = login();
    f.update(Message::UpdateField(2, "x".into()));
    f.update(Message::Submit);
    assert!(f == login());
    assert_eq!(f.field_values(), vec![String::new(), String::new()]);
}

#[test]
fn field_kind_is_kept() {
    let mut f = login();
    f.update(Message::UpdateField(1, "pw".into()));
    let expected = Form::new(
        vec![
            ("Username".into(), Field::Text(String::new())),
            ("Password".into(), Field::Password("pw".into())),
        ],
        "Log in".into(),
    );
    assert!(f == expected);
}

#[test]
fn debug_masks_password_but_shows_text() {
    assert_eq!(Field::Text("user@example.com".into()).debug_repr(), "Text(\"user@example.com\")");
    let pw = Field::Password("s3cr3t_password".into()).debug_repr();
    assert_eq!(pw, "Password(\"********\")");
    assert!(!pw.contains("s3cr3t"));
    assert_eq!(Field::Password("pw".into()).value(), "pw");
}
