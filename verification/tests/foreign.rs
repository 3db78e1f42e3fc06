use surreal_simple_querybuilder::prelude::{Foreign, ForeignVec, IntoKey, KeyError};

#[derive(Debug, PartialEq)]
struct User {
    id: Option<String>,
}

impl IntoKey for User {
    fn into_key(&self) -> Result<String, KeyError> {
        match &self.id {
            Some(id) => Ok(id.clone()),
            None => Err(KeyError { reason: "entity has no assigned identifier".to_owned() }),
        }
    }
}

fn user(id: &str) -> User {
    User { id: Some(id.to_owned()) }
}

fn nobody() -> User {
    User { id: None }
}

#[test]
fn key_of_a_key() {
    let f: Foreign<User> = Foreign::Key("User:a".to_owned());
    assert_eq!(f.key(), Some("User:a".to_owned()));
    assert!(f.value().is_none());
}

#[test]
fn key_of_a_loaded_entity() {
    let f = Foreign::Loaded(user("User:a"));
    assert_eq!(f.key(), Some("User:a".to_owned()));
    assert_eq!(f.value(), Some(&user("User:a")));
}

#[test]
fn key_of_a_loaded_entity_without_id() {
    let f = Foreign::Loaded(nobody());
    assert_eq!(f.key(), None);
    assert_eq!(f.value(), Some(&nobody()));
}

#[test]
fn key_of_unloaded() {
    let f: Foreign<User> = Foreign::Unloaded;
    assert_eq!(f.key(), None);
    assert!(f.value().is_none());
}

#[test]
fn default_is_unloaded() {
    assert!(matches!(Foreign::<User>::default(), Foreign::Unloaded));
    assert!(matches!(ForeignVec::<User>::default(), ForeignVec::Unloaded));
}

#[test]
fn fold_collapses_to_the_key() {
    let key: Foreign<User> = Foreign::Key("User:a".to_owned());
    assert_eq!(key.fold().unwrap(), Some("User:a".to_owned()));
    let loaded = Foreign::Loaded(user("User:b"));
    assert_eq!(loaded.fold().unwrap(), Some("User:b".to_owned()));
    let unloaded: Foreign<User> = Foreign::Unloaded;
    assert_eq!(unloaded.fold().unwrap(), None);
}

#[test]
fn fold_fails_where_the_entity_has_no_key() {
    let loaded = Foreign::Loaded(nobody());
    let error = loaded.fold().unwrap_err();
    assert_eq!(error.reason, "entity has no assigned identifier");
}

#[test]
fn key_written_and_read_back_is_that_key() {
    let loaded = Foreign::Loaded(user("User:a"));
    let written = loaded.fold().unwrap().unwrap();
    let read: Foreign<User> = Foreign::decode(Some(written), None, false).unwrap();
    assert!(matches!(read, Foreign::Key(ref key) if key == "User:a"));
}

#[test]
fn decode_null_is_unloaded() {
    let read: Foreign<User> = Foreign::decode(None, None, true).unwrap();
    assert!(matches!(read, Foreign::Unloaded));
}

#[test]
fn decode_object_is_loaded() {
    let read = Foreign::decode(None, Some(user("User:a")), false).unwrap();
    assert!(matches!(read, Foreign::Loaded(ref u) if *u == user("User:a")));
}

#[test]
fn decode_takes_the_first_reading_that_succeeded() {
    let read = Foreign::decode(Some("k".to_owned()), Some(user("User:a")), true).unwrap();
    assert!(matches!(read, Foreign::Key(ref key) if key == "k"));
    let read = Foreign::decode(None, Some(user("User:a")), true).unwrap();
    assert!(matches!(read, Foreign::Loaded(_)));
}

#[test]
fn decode_of_no_shape_is_nothing() {
    assert!(Foreign::<User>::decode(None, None, false).is_none());
    assert!(ForeignVec::<User>::decode(None, None, false).is_none());
}

#[test]
fn list_fold_gives_each_key_in_order() {
    let keys: ForeignVec<User> = ForeignVec::Key(vec!["a".to_owned(), "b".to_owned()]);
    assert_eq!(keys.fold().unwrap(), Some(vec!["a".to_owned(), "b".to_owned()]));
    let loaded = ForeignVec::Loaded(vec![user("x"), user("y"), user("z")]);
    assert_eq!(
        loaded.fold().unwrap(),
        Some(vec!["x".to_owned(), "y".to_owned(), "z".to_owned()])
    );
    let none: ForeignVec<User> = ForeignVec::Loaded(vec![]);
    assert_eq!(none.fold().unwrap(), Some(vec![]));
    let unloaded: ForeignVec<User> = ForeignVec::Unloaded;
    assert_eq!(unloaded.fold().unwrap(), None);
}

#[test]
fn list_fold_fails_at_the_first_entity_without_key() {
    let loaded = ForeignVec::Loaded(vec![user("x"), nobody(), user("z")]);
    assert_eq!(loaded.fold().unwrap_err().reason, "entity has no assigned identifier");
    assert_eq!(loaded.key(), None);
}

#[test]
fn list_key_and_value() {
    let keys: ForeignVec<User> = ForeignVec::Key(vec!["a".to_owned()]);
    assert_eq!(keys.key(), Some(vec!["a".to_owned()]));
    assert!(keys.value().is_none());
    let loaded = ForeignVec::Loaded(vec![user("x"), user("y")]);
    assert_eq!(loaded.key(), Some(vec!["x".to_owned(), "y".to_owned()]));
    assert_eq!(loaded.value(), Some(&vec![user("x"), user("y")]));
    let unloaded: ForeignVec<User> = ForeignVec::Unloaded;
    assert_eq!(unloaded.key(), None);
    assert!(unloaded.value().is_none());
}

#[test]
fn list_decode_by_shape() {
    let read: ForeignVec<User> =
        ForeignVec::decode(Some(vec!["a".to_owned()]), Some(vec![user("x")]), true).unwrap();
    assert!(matches!(read, ForeignVec::Key(ref keys) if keys == &vec!["a".to_owned()]));
    let read = ForeignVec::decode(None, Some(vec![user("x")]), true).unwrap();
    assert!(matches!(read, ForeignVec::Loaded(ref users) if users.len() == 1));
    let read: ForeignVec<User> = ForeignVec::decode(None, None, true).unwrap();
    assert!(matches!(read, ForeignVec::Unloaded));
}
