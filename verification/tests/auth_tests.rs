use battleship::auth::{hash, Server, User};
use battleship::rect::{area, Rectangle};

#[test]
fn hash_concatenates_input_and_salt() {
    let out = hash("Password123".to_string(), "abcd");
    assert_eq!(out, "Hash(Password123 + abcd)");
}

#[test]
fn hash_of_empty_parts() {
    assert_eq!(hash(String::new(), ""), "Hash( + )");
}

#[test]
fn authenticate_accepts_the_expected_response() {
    let user = User {
        username: "lllu_23".to_string(),
        password: "Password123".to_string(),
    };
    let server = Server {
        salt: "0123456789abcdef".to_string(),
    };
    let response = hash(user.password.clone(), &server.salt);
    assert!(server.authenticate(&user, &response));
}

#[test]
fn authenticate_rejects_a_wrong_response() {
    let user = User {
        username: "lllu_23".to_string(),
        password: "Password123".to_string(),
    };
    let server = Server {
        salt: "0123456789abcdef".to_string(),
    };
    assert!(!server.authenticate(&user, "Hash(Password123 + wrongsalt)"));
    assert!(!server.authenticate(&user, ""));
}

#[test]
fn area_of_a_rectangle() {
    let rect = Rectangle {
        width: 30,
        length: 50,
    };
    assert_eq!(area(&rect), 1500);
    let unit = Rectangle {
        width: 1,
        length: 1,
    };
    assert_eq!(area(&unit), 1);
}
