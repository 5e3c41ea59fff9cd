use password_manager::errors::StoreError;
use password_manager::io::{prompt_for_new_password, prompt_for_password};

#[test]
fn entered_password_is_trimmed() {
    assert_eq!(prompt_for_password(" hunter2\n"), "hunter2");
    assert_eq!(prompt_for_password("hunter2"), "hunter2");
    assert_eq!(prompt_for_password("\t pa ss \r\n"), "pa ss");
}

#[test]
fn unicode_whitespace_is_trimmed() {
    assert_eq!(prompt_for_password("\u{3000}pw\u{2003}"), "pw");
}

#[test]
fn all_whitespace_means_empty_password() {
    assert_eq!(prompt_for_password(" \t\r\n"), "");
    assert_eq!(prompt_for_password(""), "");
}

#[test]
fn new_password_confirmed() {
    let r = prompt_for_new_password("s3cret\n", "s3cret\n");
    assert_eq!(r.unwrap(), "s3cret");
}

#[test]
fn new_password_confirmation_ignores_surrounding_space() {
    let r = prompt_for_new_password(" s3cret\n", "s3cret \n");
    assert_eq!(r.unwrap(), "s3cret");
}

#[test]
fn new_password_mismatch_rejected() {
    let r = prompt_for_new_password("s3cret\n", "s3cr3t\n");
    assert_eq!(r, Err(StoreError::PasswordConfirmationMismatch));
}
