use surreal_simple_querybuilder::prelude::{
    FieldDecl, Foreign, ForeignVec, IntoKey, KeyError, ModelDecl, NodeBuilder, QueryBuilder,
    QueryBuilderSetObject, Schema, Schemas, ToNodeBuilder,
};

#[derive(Debug, Default)]
struct Account {
    id: Option<String>,
    handle: String,
    password: String,
    email: String,

    projects: ForeignVec<Project>,
}

#[derive(Debug, Default)]
struct Project {
    id: Option<String>,
    name: String,

    releases: ForeignVec<Release>,
}

#[derive(Debug, Default)]
struct Release {
    id: Option<String>,
    name: String,
}

fn schemas() -> Schemas {
    let mut schemas = Schemas::new();

    assert!(schemas.declare(ModelDecl::new("Release").with(FieldDecl::field("name"))));
    assert!(schemas.declare(
        ModelDecl::new("Project")
            .with(FieldDecl::field("name"))
            .with(FieldDecl::forward("has", "Release", "releases"))
            .with(FieldDecl::backward("manage", "Account", "authors")),
    ));
    assert!(schemas.declare(
        ModelDecl::new("Account")
            .with(FieldDecl::field("handle"))
            .with(FieldDecl::field("password"))
            .with(FieldDecl::field("email"))
            .with(FieldDecl::typed("friend", "Account"))
            .with(FieldDecl::forward("manage", "Project", "managed_projects")),
    ));

    schemas
}

fn account() -> Schema {
    schemas().model("Account").unwrap()
}

fn project() -> Schema {
    schemas().model("Project").unwrap()
}

fn key_of(id: &Option<String>, reason: &str) -> Result<String, KeyError> {
    id.as_ref().map(String::clone).ok_or(KeyError { reason: reason.to_owned() })
}

impl IntoKey for Project {
    fn into_key(&self) -> Result<String, KeyError> {
        key_of(&self.id, "The project has no ID")
    }
}

impl IntoKey for Release {
    fn into_key(&self) -> Result<String, KeyError> {
        key_of(&self.id, "The release has no ID")
    }
}

impl IntoKey for Account {
    fn into_key(&self) -> Result<String, KeyError> {
        key_of(&self.id, "The account has no ID")
    }
}

impl QueryBuilderSetObject for Account {
    fn set_querybuilder_object<'a>(mut querybuilder: QueryBuilder<'a>) -> QueryBuilder<'a> {
        let account = account();
        let a = &[
            querybuilder.hold(account.field("handle").unwrap().equals_parameterized()),
            querybuilder.hold(account.field("password").unwrap().equals_parameterized()),
            querybuilder.hold(account.field("email").unwrap().equals_parameterized()),
        ];

        querybuilder.set_many(a)
    }
}

fn account_json(account: &Account) -> String {
    let text = |s: &str| serde_json::Value::String(s.to_owned());
    let mut object = serde_json::Map::new();
    object.insert(
        "id".to_owned(),
        match &account.id {
            Some(id) => text(id),
            None => serde_json::Value::Null,
        },
    );
    object.insert("handle".to_owned(), text(&account.handle));
    object.insert("password".to_owned(), text(&account.password));
    object.insert("email".to_owned(), text(&account.email));
    object.insert("projects".to_owned(), serde_json::Value::Null);
    serde_json::to_string(&serde_json::Value::Object(object)).unwrap()
}

fn read_account(value: &serde_json::Value) -> Option<Account> {
    let object = value.as_object()?;
    let text = |name: &str| object.get(name).and_then(|v| v.as_str()).map(str::to_owned);
    Some(Account {
        id: text("id"),
        handle: text("handle")?,
        password: text("password")?,
        email: text("email")?,
        ..Default::default()
    })
}

struct File {
    name: String,
    author: Foreign<Account>,
}

fn read_file(json: &str) -> File {
    let file: serde_json::Value = serde_json::from_str(json).unwrap();
    let author = &file["author"];
    File {
        name: file["name"].as_str().unwrap().to_owned(),
        author: Foreign::decode(
            author.as_str().map(str::to_owned),
            read_account(author),
            author.is_null(),
        )
        .unwrap(),
    }
}

fn written(f: &Foreign<Account>) -> serde_json::Value {
    match f.fold().unwrap() {
        Some(key) => serde_json::Value::String(key),
        None => serde_json::Value::Null,
    }
}

#[test]
fn test_create_account_query() {
    let account = account();
    let node = account.field("handle").unwrap().as_named_label(&account.to_string());
    let query = QueryBuilder::new()
        .create(&node)
        .set_object::<Account>()
        .build();

    assert_eq!(
        query,
        "CREATE Account:handle SET handle = $handle , password = $password , email = $email"
    );
}

#[test]
fn test_account_find_query() {
    let account = account();
    let condition = account.field("email").unwrap().equals_parameterized();
    let query = QueryBuilder::new()
        .select("*")
        .from(account.name())
        .filter(&condition)
        .build();

    assert_eq!(query, "SELECT * FROM Account WHERE email = $email");
}

#[test]
pub fn test_nodebuilder_relation() {
    let s = "Account".with("IS_FRIEND").with("Account:Mark").to_owned();

    assert_eq!("Account->IS_FRIEND->Account:Mark", s);
}

#[test]
pub fn test_nodebuilder_condition() {
    let should_be_friend_with_mark = true;
    let should_be_friend_with_john = false;

    let s = String::new()
        .with("IS_FRIEND")
        .if_then(should_be_friend_with_mark, |s| s.with("Account:Mark"))
        .if_then(should_be_friend_with_john, |s| s.with("Account:John"))
        .to_owned();

    assert_eq!("->IS_FRIEND->Account:Mark", s);
}

#[test]
pub fn test_as_named_label() {
    let user_handle = "John";
    let label = user_handle.as_named_label("Account");

    assert_eq!(label, "Account:John");
}

#[test]
pub fn test_foreign_serialize() {
    let f: Foreign<Account> = Foreign::Key("Account:John".to_owned());

    // a foreign key is written as a simple string
    assert_eq!(serde_json::Value::String("Account:John".to_owned()), written(&f));

    let f: Foreign<Account> = Foreign::Loaded(Account {
        id: Some("Account:John".to_owned()),
        ..Default::default()
    });

    // a loaded value is written as the key that the entity gives
    assert_eq!(serde_json::Value::String("Account:John".to_owned()), written(&f));
}

#[test]
fn test_foreign_deserialize() {
    let created_account = Account {
        id: Some("Account:John".to_owned()),
        handle: "JohnTheUser".to_owned(),
        password: "abc".to_owned(),
        email: "abc".to_owned(),
        ..Default::default()
    };

    // a json string where the author field contains a fully built Account
    // object.
    let loaded_author_json = format!(
        "{{ \"name\": \"filename\", \"author\": {} }}",
        account_json(&created_account)
    );

    let file: File = read_file(&loaded_author_json);
    assert_eq!(file.name, "filename");

    // the `Foreign<Author>` contains a value
    assert!(match &file.author.value() {
        Some(acc) => acc.id == Some("Account:John".to_owned()),
        _ => false,
    });

    // a json string where the author field is an ID string.
    let key_author_json = "{ \"name\": \"filename\", \"author\": \"Account:John\" }";
    let file: File = read_file(&key_author_json);

    // the author field of the file is a Key with the account's ID
    assert!(match file.author.key().as_deref() {
        Some(key) => key == &"Account:John".to_owned(),
        _ => false,
    });

    // a json string where the author field is set to null.
    let unloaded_author_json = "{ \"name\": \"filename\", \"author\": null }";
    let file: File = read_file(&unloaded_author_json);

    // the author field of the file is Unloaded
    assert!(match file.author {
        Foreign::Unloaded => true,
        _ => false,
    });
}

/// A model can have fields that reference its own type.
#[test]
fn test_model_self_reference() {
    let schemas = schemas();
    let account = account();
    let friend = schemas.enter(account.field("friend").unwrap()).unwrap();

    assert_eq!("friend", account.field("friend").unwrap().to_string());
    assert_eq!("Account", friend.to_string());
    assert_eq!("friend.handle", friend.field("handle").unwrap().to_string());
}

#[test]
fn test_model_serializing_relations() {
    let schemas = schemas();
    let account = account();
    let project = project();
    let managed_projects = schemas.enter(account.field("managed_projects").unwrap()).unwrap();
    let releases = schemas.enter(managed_projects.field("releases").unwrap()).unwrap();

    assert_eq!(
        "->manage->Project as account_projects",
        account.field("managed_projects").unwrap().as_alias("account_projects")
    );
    assert_eq!("Project", managed_projects.to_string());
    assert_eq!(
        "->manage->Project.name as project_names",
        managed_projects.field("name").unwrap().as_alias("project_names")
    );

    assert_eq!(
        "->manage->Project->has->Release as account_projects_releases",
        managed_projects
            .field("releases")
            .unwrap()
            .as_alias("account_projects_releases")
    );

    assert_eq!(
        "->manage->Project->has->Release.name as account_projects_release_names",
        releases
            .field("name")
            .unwrap()
            .as_alias("account_projects_release_names")
    );

    assert_eq!(
        "<-manage<-Account as authors",
        project.field("authors").unwrap().as_alias("authors")
    );
}
