use surreal_simple_querybuilder::prelude::{
    Direction, FieldDecl, ModelDecl, Schema, SchemaField, Schemas,
};

fn schemas() -> Schemas {
    let mut schemas = Schemas::new();
    schemas.declare(ModelDecl::new("Release").with(FieldDecl::field("name")));
    schemas.declare(
        ModelDecl::new("Project")
            .with(FieldDecl::field("name"))
            .with(FieldDecl::forward("has", "Release", "releases"))
            .with(FieldDecl::backward("manage", "Account", "authors")),
    );
    schemas.declare(
        ModelDecl::new("Account")
            .with(FieldDecl::field("handle"))
            .with(FieldDecl::typed("friend", "Account"))
            .with(FieldDecl::typed("ghost", "Nobody"))
            .with(FieldDecl::forward("manage", "Project", "managed_projects")),
    );
    schemas
}

#[test]
fn declaration_holds_what_it_was_given() {
    let plain = FieldDecl::field("handle");
    assert_eq!(plain.name, "handle");
    assert_eq!(plain.edge, "");
    assert!(matches!(plain.direction, Direction::NoEdge));
    assert_eq!(plain.target, None);

    let typed = FieldDecl::typed("friend", "Account");
    assert_eq!(typed.name, "friend");
    assert_eq!(typed.edge, "");
    assert!(matches!(typed.direction, Direction::NoEdge));
    assert_eq!(typed.target, Some("Account".to_owned()));

    let forward = FieldDecl::forward("manage", "Project", "managed_projects");
    assert_eq!(forward.name, "managed_projects");
    assert_eq!(forward.edge, "manage");
    assert!(matches!(forward.direction, Direction::Forward));
    assert_eq!(forward.target, Some("Project".to_owned()));

    let backward = FieldDecl::backward("manage", "Account", "authors");
    assert_eq!(backward.name, "authors");
    assert_eq!(backward.edge, "manage");
    assert!(matches!(backward.direction, Direction::Backward));
    assert_eq!(backward.target, Some("Account".to_owned()));

    let copy = forward.duplicate();
    assert_eq!(copy.name, "managed_projects");
    assert_eq!(copy.edge, "manage");
    assert!(matches!(copy.direction, Direction::Forward));
    assert_eq!(copy.target, Some("Project".to_owned()));
}

#[test]
fn model_keeps_its_fields_in_order() {
    let model = ModelDecl::new("A").with(FieldDecl::field("x")).with(FieldDecl::field("y"));
    assert_eq!(model.name, "A");
    assert_eq!(model.fields.len(), 2);
    assert_eq!(model.fields[0].name, "x");
    assert_eq!(model.fields[1].name, "y");
}

#[test]
fn plain_field_path() {
    assert_eq!(FieldDecl::field("name").path_under(""), "name");
    assert_eq!(FieldDecl::field("name").path_under("friend"), "friend.name");
    assert_eq!(FieldDecl::field("name").path_under("->has->Release"), "->has->Release.name");
}

#[test]
fn relation_path() {
    let forward = FieldDecl::forward("manage", "Project", "managed_projects");
    assert_eq!(forward.path_under(""), "->manage->Project");
    assert_eq!(forward.path_under("friend"), "friend->manage->Project");
    let backward = FieldDecl::backward("manage", "Account", "authors");
    assert_eq!(backward.path_under(""), "<-manage<-Account");
    assert_eq!(backward.path_under("->has->Project"), "->has->Project<-manage<-Account");
}

#[test]
fn relation_aliased_with_its_own_name() {
    let decl = FieldDecl::forward("manage", "Project", "managed_projects");
    let field = SchemaField::new(&decl, "");
    assert_eq!(field.as_alias("managed_projects"), "->manage->Project as managed_projects");
    assert_eq!(field.as_own_alias(), "->manage->Project as managed_projects");
    assert_eq!(field.to_string(), "->manage->Project");
    assert_eq!(field.name(), "managed_projects");
    assert_eq!(field.path(), "->manage->Project");
}

#[test]
fn alias_leaves_the_descriptor_as_it_was() {
    let decl = FieldDecl::field("handle");
    let field = SchemaField::new(&decl, "friend");
    assert_eq!(field.as_alias("h"), "friend.handle as h");
    assert_eq!(field.to_string(), "friend.handle");
    let named = field.with_alias("h");
    assert_eq!(named.to_string(), "friend.handle as h");
    assert_eq!(named.path(), "friend.handle");
    assert_eq!(named.as_own_alias(), "friend.handle as h");
    assert_eq!(named.as_alias("other"), "friend.handle as other");
    assert_eq!(field.to_string(), "friend.handle");
    assert_eq!(field.as_own_alias(), "friend.handle as handle");
}

#[test]
fn equals_parameterized_names_the_parameter() {
    let decl = FieldDecl::field("email");
    let field = SchemaField::new(&decl, "");
    assert_eq!(field.equals_parameterized(), "email = $email");
    assert_eq!(field.with_alias("mail").equals_parameterized(), "email = $mail");
    let nested = SchemaField::new(&decl, "friend");
    assert_eq!(nested.equals_parameterized(), "friend.email = $friend.email");
}

#[test]
fn named_label_of_a_field() {
    let decl = FieldDecl::field("handle");
    let field = SchemaField::new(&decl, "");
    assert_eq!(field.as_named_label("Account"), "Account:handle");
}

#[test]
fn schema_gives_its_fields_by_name() {
    let model = ModelDecl::new("A")
        .with(FieldDecl::field("x"))
        .with(FieldDecl::forward("e", "B", "y"))
        .with(FieldDecl::field("x"));
    let schema = Schema::new(&model, "p");
    assert_eq!(schema.name(), "A");
    assert_eq!(schema.to_string(), "A");
    assert_eq!(schema.field("x").unwrap().to_string(), "p.x");
    assert_eq!(schema.field("y").unwrap().to_string(), "p->e->B");
    assert!(schema.field("z").is_none());
    assert!(schema.field("").is_none());
}

#[test]
fn model_is_found_by_name() {
    let schemas = schemas();
    assert_eq!(schemas.model("Account").unwrap().to_string(), "Account");
    assert_eq!(schemas.model("Release").unwrap().field("name").unwrap().to_string(), "name");
    assert!(schemas.model("Nobody").is_none());
    assert!(schemas.model("").is_none());
}

#[test]
fn declaring_a_name_twice_keeps_the_first() {
    let mut schemas = Schemas::new();
    assert!(schemas.declare(ModelDecl::new("A").with(FieldDecl::field("x"))));
    assert!(!schemas.declare(ModelDecl::new("A").with(FieldDecl::field("y"))));
    let a = schemas.model("A").unwrap();
    assert!(a.field("x").is_some());
    assert!(a.field("y").is_none());
}

#[test]
fn entering_a_plain_field_leads_nowhere() {
    let schemas = schemas();
    let account = schemas.model("Account").unwrap();
    assert!(schemas.enter(account.field("handle").unwrap()).is_none());
}

#[test]
fn entering_an_undeclared_entity_leads_nowhere() {
    let schemas = schemas();
    let account = schemas.model("Account").unwrap();
    assert!(schemas.enter(account.field("ghost").unwrap()).is_none());
}

#[test]
fn self_reference_can_be_entered_again_and_again() {
    let schemas = schemas();
    let account = schemas.model("Account").unwrap();
    let once = schemas.enter(account.field("friend").unwrap()).unwrap();
    let twice = schemas.enter(once.field("friend").unwrap()).unwrap();
    let thrice = schemas.enter(twice.field("friend").unwrap()).unwrap();
    assert_eq!(once.field("handle").unwrap().to_string(), "friend.handle");
    assert_eq!(twice.field("handle").unwrap().to_string(), "friend.friend.handle");
    assert_eq!(thrice.to_string(), "Account");
    assert_eq!(
        thrice.field("managed_projects").unwrap().to_string(),
        "friend.friend.friend->manage->Project"
    );
}

#[test]
fn entering_does_not_change_the_root() {
    let schemas = schemas();
    let account = schemas.model("Account").unwrap();
    let projects = schemas.enter(account.field("managed_projects").unwrap()).unwrap();
    let authors = schemas.enter(projects.field("authors").unwrap()).unwrap();
    assert_eq!(
        authors.field("handle").unwrap().to_string(),
        "->manage->Project<-manage<-Account.handle"
    );
    assert_eq!(account.field("handle").unwrap().to_string(), "handle");
    assert_eq!(projects.field("name").unwrap().to_string(), "->manage->Project.name");
}
