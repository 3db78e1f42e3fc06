//! Entities with their fields and relations, declared once as plain data,
//! and the descriptors that render the path to each of them.

use vstd::prelude::*;
use crate::node_builder::{aliased, concat3, equals_param, named_label};
use crate::text::same_text;

verus! {

/// How a field is reached from the entity that declares it.
#[derive(Clone, Copy, Debug)]
pub enum Direction {
    /// A field of the entity itself, written after a dot.
    NoEdge,
    /// Along an edge that leaves the entity.
    Forward,
    /// Along an edge that arrives at the entity.
    Backward,
}

/// The declaration of one field or relation of an entity.
pub struct FieldDecl {
    /// The name by which the entity knows the field.
    pub name: String,
    /// The label of the edge; empty unless the field is a relation.
    pub edge: String,
    /// Whether the field is reached along an edge, and which way.
    pub direction: Direction,
    /// The entity that the field leads to, where it leads to one.
    pub target: Option<String>,
}

/// A declaration as plain values.
pub struct FieldDeclText {
    pub name: Seq<char>,
    pub edge: Seq<char>,
    pub direction: Direction,
    pub target: Option<Seq<char>>,
}

/// The text of `s`, where there is one.
pub open spec fn text_of_option(s: Option<String>) -> Option<Seq<char>> {
    match s {
        Some(s) => Some(s@),
        None => None,
    }
}

impl View for FieldDecl {
    type V = FieldDeclText;

    open spec fn view(&self) -> FieldDeclText {
        FieldDeclText {
            name: self.name@,
            edge: self.edge@,
            direction: self.direction,
            target: text_of_option(self.target),
        }
    }
}

impl FieldDeclText {
    /// The name of the entity that the field leads to; empty where it leads
    /// to none.
    pub open spec fn target_name(self) -> Seq<char> {
        match self.target {
            Some(target) => target,
            None => Seq::empty(),
        }
    }

    /// The path to the field from an entity reached by `prefix`. A field of
    /// the entity itself stands after a dot, or alone at the root; a relation
    /// is written as its edge and the entity it leads to, each after an
    /// arrow.
    pub open spec fn path_under(self, prefix: Seq<char>) -> Seq<char> {
        match self.direction {
            Direction::NoEdge => if prefix.len() == 0 {
                self.name
            } else {
                prefix + seq!['.'] + self.name
            },
            Direction::Forward => prefix + seq!['-', '>'] + self.edge + seq!['-', '>']
                + self.target_name(),
            Direction::Backward => prefix + seq!['<', '-'] + self.edge + seq!['<', '-']
                + self.target_name(),
        }
    }
}

impl FieldDecl {
    /// A plain field called `name`.
    pub fn field(name: &str) -> (decl: FieldDecl)
        ensures
            decl@ == (FieldDeclText {
                name: name@,
                edge: Seq::empty(),
                direction: Direction::NoEdge,
                target: None,
            }),
    {
        FieldDecl {
            name: name.to_owned(),
            edge: String::new(),
            direction: Direction::NoEdge,
            target: None,
        }
    }

    /// A field called `name` that holds an entity `target`, which may be the
    /// declaring entity itself.
    pub fn typed(name: &str, target: &str) -> (decl: FieldDecl)
        ensures
            decl@ == (FieldDeclText {
                name: name@,
                edge: Seq::empty(),
                direction: Direction::NoEdge,
                target: Some(target@),
            }),
    {
        FieldDecl {
            name: name.to_owned(),
            edge: String::new(),
            direction: Direction::NoEdge,
            target: Some(target.to_owned()),
        }
    }

    /// A relation called `name`, along the edge `edge` that leaves the entity
    /// for `target`.
    pub fn forward(edge: &str, target: &str, name: &str) -> (decl: FieldDecl)
        ensures
            decl@ == (FieldDeclText {
                name: name@,
                edge: edge@,
                direction: Direction::Forward,
                target: Some(target@),
            }),
    {
        FieldDecl {
            name: name.to_owned(),
            edge: edge.to_owned(),
            direction: Direction::Forward,
            target: Some(target.to_owned()),
        }
    }

    /// A relation called `name`, along the edge `edge` that arrives at the
    /// entity from `target`.
    pub fn backward(edge: &str, target: &str, name: &str) -> (decl: FieldDecl)
        ensures
            decl@ == (FieldDeclText {
                name: name@,
                edge: edge@,
                direction: Direction::Backward,
                target: Some(target@),
            }),
    {
        FieldDecl {
            name: name.to_owned(),
            edge: edge.to_owned(),
            direction: Direction::Backward,
            target: Some(target.to_owned()),
        }
    }

    /// A declaration that says the same.
    pub fn duplicate(&self) -> (decl: FieldDecl)
        ensures
            decl@ == self@,
    {
        let target: Option<String> = match &self.target {
            Some(target) => Some(target.clone()),
            None => None,
        };
        FieldDecl {
            name: self.name.clone(),
            edge: self.edge.clone(),
            direction: self.direction,
            target,
        }
    }

    /// The path to the field from an entity reached by `prefix`.
    pub fn path_under(&self, prefix: &str) -> (path: String)
        ensures
            path@ == self@.path_under(prefix@),
    {
        proof {
            reveal_strlit(".");
            reveal_strlit("->");
            reveal_strlit("<-");
            reveal_strlit("");
        }
        assert("."@ =~= seq!['.']);
        assert("->"@ =~= seq!['-', '>']);
        assert("<-"@ =~= seq!['<', '-']);
        assert(""@ =~= Seq::<char>::empty());
        let target: &str = match &self.target {
            Some(target) => target.as_str(),
            None => "",
        };
        match self.direction {
            Direction::NoEdge => {
                if prefix.is_empty() {
                    self.name.clone()
                } else {
                    concat3(prefix, ".", self.name.as_str())
                }
            },
            Direction::Forward => {
                let mut path: String = concat3(prefix, "->", self.edge.as_str());
                path.append("->");
                path.append(target);
                path
            },
            Direction::Backward => {
                let mut path: String = concat3(prefix, "<-", self.edge.as_str());
                path.append("<-");
                path.append(target);
                path
            },
        }
    }
}

/// The declaration of an entity: its name and what it is made of.
pub struct ModelDecl {
    /// The name of the entity, as queries write it.
    pub name: String,
    /// Its fields and relations, in the order of their declaration.
    pub fields: Vec<FieldDecl>,
}

/// The declaration of an entity as plain values.
pub struct ModelText {
    pub name: Seq<char>,
    pub fields: Seq<FieldDeclText>,
}

impl View for ModelDecl {
    type V = ModelText;

    open spec fn view(&self) -> ModelText {
        ModelText {
            name: self.name@,
            fields: Seq::new(self.fields@.len(), |i: int| self.fields@[i]@),
        }
    }
}

impl ModelDecl {
    /// The entity `name`, with nothing declared of it yet.
    pub fn new(name: &str) -> (model: ModelDecl)
        ensures
            model@ == (ModelText { name: name@, fields: Seq::empty() }),
    {
        let model = ModelDecl { name: name.to_owned(), fields: Vec::new() };
        assert(model@.fields =~= Seq::empty());
        model
    }

    /// With `decl` as the next field.
    pub fn with(self, decl: FieldDecl) -> (model: ModelDecl)
        ensures
            model@ == (ModelText { name: self@.name, fields: self@.fields.push(decl@) }),
    {
        let ModelDecl { name, fields } = self;
        let mut fields = fields;
        fields.push(decl);
        let model = ModelDecl { name, fields };
        assert(model@.fields =~= self@.fields.push(decl@));
        model
    }
}

/// A descriptor as plain values: a declaration, the path that leads to the
/// entity it is read from, and the alias given to it, if any.
pub struct FieldText {
    pub prefix: Seq<char>,
    pub decl: FieldDeclText,
    pub alias: Option<Seq<char>>,
}

impl FieldText {
    /// The path to the field, without its alias.
    pub open spec fn path(self) -> Seq<char> {
        self.decl.path_under(self.prefix)
    }

    /// The field as it is written: its path, and behind it the alias where
    /// one was given.
    pub open spec fn rendered(self) -> Seq<char> {
        match self.alias {
            Some(alias) => aliased(self.path(), alias),
            None => self.path(),
        }
    }

    /// The alias given to the field, or its own name where none was given.
    pub open spec fn alias_or_name(self) -> Seq<char> {
        match self.alias {
            Some(alias) => alias,
            None => self.decl.name,
        }
    }

    /// The name of the parameter that the field is compared with: its alias,
    /// or its path where it has none.
    pub open spec fn param_name(self) -> Seq<char> {
        match self.alias {
            Some(alias) => alias,
            None => self.path(),
        }
    }
}

/// One field or relation of an entity, as it is reached along a path.
pub struct SchemaField {
    decl: FieldDecl,
    prefix: String,
    alias: Option<String>,
    path: String,
}

impl View for SchemaField {
    type V = FieldText;

    closed spec fn view(&self) -> FieldText {
        FieldText { prefix: self.prefix@, decl: self.decl@, alias: text_of_option(self.alias) }
    }
}

impl SchemaField {
    #[verifier::type_invariant]
    spec fn inv(&self) -> bool {
        self.path@ == self.decl@.path_under(self.prefix@)
    }

    /// The descriptor of `decl` in an entity reached by `prefix`.
    pub fn new(decl: &FieldDecl, prefix: &str) -> (field: SchemaField)
        ensures
            field@ == (FieldText { prefix: prefix@, decl: decl@, alias: None }),
    {
        SchemaField {
            decl: decl.duplicate(),
            prefix: prefix.to_owned(),
            alias: None,
            path: decl.path_under(prefix),
        }
    }

    /// The name by which the entity knows the field.
    pub fn name(&self) -> (name: &str)
        ensures
            name@ == self@.decl.name,
    {
        self.decl.name.as_str()
    }

    /// The path to the field, without its alias.
    pub fn path(&self) -> (path: &str)
        ensures
            path@ == self@.path(),
    {
        proof {
            use_type_invariant(self);
        }
        self.path.as_str()
    }

    /// The field as it is written in a query.
    pub fn to_string(&self) -> (text: String)
        ensures
            text@ == self@.rendered(),
    {
        proof {
            use_type_invariant(self);
        }
        match &self.alias {
            Some(alias) => self.as_alias(alias.as_str()),
            None => self.path.clone(),
        }
    }

    /// The same field under the name `alias`; this descriptor stays as it is.
    pub fn with_alias(&self, alias: &str) -> (field: SchemaField)
        ensures
            field@ == (FieldText { alias: Some(alias@), ..self@ }),
    {
        proof {
            use_type_invariant(self);
        }
        SchemaField {
            decl: self.decl.duplicate(),
            prefix: self.prefix.clone(),
            alias: Some(alias.to_owned()),
            path: self.path.clone(),
        }
    }

    /// The path to the field under the name `alias`.
    pub fn as_alias(&self, alias: &str) -> (text: String)
        ensures
            text@ == aliased(self@.path(), alias@),
    {
        proof {
            use_type_invariant(self);
            reveal_strlit(" as ");
        }
        assert(" as "@ =~= seq![' ', 'a', 's', ' ']);
        concat3(self.path.as_str(), " as ", alias)
    }

    /// The path to the field under the alias given to it, or under its own
    /// name where none was given.
    pub fn as_own_alias(&self) -> (text: String)
        ensures
            text@ == aliased(self@.path(), self@.alias_or_name()),
    {
        match &self.alias {
            Some(alias) => self.as_alias(alias.as_str()),
            None => self.as_alias(self.decl.name.as_str()),
        }
    }

    /// The path to the field as the identifier of a record of the table
    /// `label_name`.
    pub fn as_named_label(&self, label_name: &str) -> (label: String)
        ensures
            label@ == named_label(label_name@, self@.path()),
    {
        proof {
            use_type_invariant(self);
            reveal_strlit(":");
        }
        assert(":"@ =~= seq![':']);
        concat3(label_name, ":", self.path.as_str())
    }

    /// The field compared with the parameter that goes by its alias, or by
    /// its path where it has no alias.
    pub fn equals_parameterized(&self) -> (condition: String)
        ensures
            condition@ == equals_param(self@.path(), self@.param_name()),
    {
        proof {
            use_type_invariant(self);
            reveal_strlit(" = $");
        }
        assert(" = $"@ =~= seq![' ', '=', ' ', '$']);
        match &self.alias {
            Some(alias) => concat3(self.path.as_str(), " = $", alias.as_str()),
            None => concat3(self.path.as_str(), " = $", self.path.as_str()),
        }
    }
}

/// An entity as it is reached along a path, as plain values.
pub struct SchemaText {
    pub name: Seq<char>,
    pub prefix: Seq<char>,
    pub fields: Seq<FieldText>,
}

/// The entity `model` as it is reached by `prefix`: each of its fields
/// carries `prefix`, and none an alias.
pub open spec fn schema_at(model: ModelText, prefix: Seq<char>) -> SchemaText {
    SchemaText {
        name: model.name,
        prefix,
        fields: Seq::new(
            model.fields.len(),
            |i: int| FieldText { prefix, decl: model.fields[i], alias: None },
        ),
    }
}

/// The first of `fields` that the entity knows as `name`.
pub open spec fn field_named(fields: Seq<FieldText>, name: Seq<char>) -> Option<FieldText>
    decreases fields.len(),
{
    if fields.len() == 0 {
        None
    } else if fields[0].decl.name == name {
        Some(fields[0])
    } else {
        field_named(fields.drop_first(), name)
    }
}

/// The first of `models` that declares the entity `name`.
pub open spec fn model_named(models: Seq<ModelText>, name: Seq<char>) -> Option<ModelText>
    decreases models.len(),
{
    if models.len() == 0 {
        None
    } else if models[0].name == name {
        Some(models[0])
    } else {
        model_named(models.drop_first(), name)
    }
}

/// What entering `field` leads to: the entity that it holds or relates to,
/// reached by the path of `field`. Nothing where `field` leads to no entity,
/// or to one that `models` does not declare.
pub open spec fn entered(models: Seq<ModelText>, field: FieldText) -> Option<SchemaText> {
    match field.decl.target {
        None => None,
        Some(target) => match model_named(models, target) {
            None => None,
            Some(model) => Some(schema_at(model, field.path())),
        },
    }
}

/// An entity as it is reached along a path, with a descriptor for each of its
/// fields.
pub struct Schema {
    name: String,
    prefix: String,
    fields: Vec<SchemaField>,
}

impl View for Schema {
    type V = SchemaText;

    closed spec fn view(&self) -> SchemaText {
        SchemaText {
            name: self.name@,
            prefix: self.prefix@,
            fields: Seq::new(self.fields@.len(), |i: int| self.fields@[i]@),
        }
    }
}

impl Schema {
    /// The entity `model` as it is reached by `prefix`.
    pub fn new(model: &ModelDecl, prefix: &str) -> (schema: Schema)
        ensures
            schema@ == schema_at(model@, prefix@),
    {
        let mut fields: Vec<SchemaField> = Vec::new();
        let mut i: usize = 0;
        while i < model.fields.len()
            invariant
                i <= model.fields.len(),
                fields@.len() == i,
                forall|j: int|
                    0 <= j < i ==> (#[trigger] fields@[j])@ == (FieldText {
                        prefix: prefix@,
                        decl: model.fields@[j]@,
                        alias: None,
                    }),
            decreases model.fields.len() - i,
        {
            fields.push(SchemaField::new(&model.fields[i], prefix));
            i += 1;
        }
        let schema = Schema { name: model.name.clone(), prefix: prefix.to_owned(), fields };
        assert(schema@.fields =~= schema_at(model@, prefix@).fields);
        schema
    }

    /// The name of the entity.
    pub fn name(&self) -> (name: &str)
        ensures
            name@ == self@.name,
    {
        self.name.as_str()
    }

    /// The entity as it is written in a query: its name, whatever path led
    /// to it.
    pub fn to_string(&self) -> (text: String)
        ensures
            text@ == self@.name,
    {
        self.name.clone()
    }

    /// The descriptor of the field that the entity knows as `name`.
    pub fn field(&self, name: &str) -> (found: Option<&SchemaField>)
        ensures
            match found {
                Some(field) => field_named(self@.fields, name@) == Some(field@),
                None => field_named(self@.fields, name@) is None,
            },
    {
        let mut i: usize = 0;
        assert(self@.fields.skip(0) =~= self@.fields);
        while i < self.fields.len()
            invariant
                i <= self.fields.len(),
                field_named(self@.fields, name@) == field_named(self@.fields.skip(i as int), name@),
            decreases self.fields.len() - i,
        {
            let ghost rest = self@.fields.skip(i as int);
            assert(rest[0] == self.fields@[i as int]@);
            assert(rest.drop_first() =~= self@.fields.skip(i + 1));
            if same_text(self.fields[i].name(), name) {
                return Some(&self.fields[i]);
            }
            i += 1;
        }
        None
    }
}

/// The entities that have been declared.
pub struct Schemas {
    models: Vec<ModelDecl>,
}

impl View for Schemas {
    type V = Seq<ModelText>;

    closed spec fn view(&self) -> Seq<ModelText> {
        Seq::new(self.models@.len(), |i: int| self.models@[i]@)
    }
}

impl Schemas {
    /// No entity declared.
    pub fn new() -> (schemas: Schemas)
        ensures
            schemas@ == Seq::<ModelText>::empty(),
    {
        let schemas = Schemas { models: Vec::new() };
        assert(schemas@ =~= Seq::<ModelText>::empty());
        schemas
    }

    fn find(&self, name: &str) -> (found: Option<&ModelDecl>)
        ensures
            match found {
                Some(model) => model_named(self@, name@) == Some(model@),
                None => model_named(self@, name@) is None,
            },
    {
        let mut i: usize = 0;
        assert(self@.skip(0) =~= self@);
        while i < self.models.len()
            invariant
                i <= self.models.len(),
                model_named(self@, name@) == model_named(self@.skip(i as int), name@),
            decreases self.models.len() - i,
        {
            let ghost rest = self@.skip(i as int);
            assert(rest[0] == self.models@[i as int]@);
            assert(rest.drop_first() =~= self@.skip(i + 1));
            if same_text(self.models[i].name.as_str(), name) {
                return Some(&self.models[i]);
            }
            i += 1;
        }
        None
    }

    /// Declares `model`, unless an entity of its name is declared already.
    /// Says whether it was declared.
    pub fn declare(&mut self, model: ModelDecl) -> (declared: bool)
        ensures
            declared == (model_named(old(self)@, model@.name) is None),
            final(self)@ == if declared {
                old(self)@.push(model@)
            } else {
                old(self)@
            },
    {
        if self.find(model.name.as_str()).is_some() {
            return false;
        }
        self.models.push(model);
        assert(self@ =~= old(self)@.push(model@));
        true
    }

    /// The entity `name` at the root, where it is declared.
    pub fn model(&self, name: &str) -> (found: Option<Schema>)
        ensures
            match found {
                Some(schema) => model_named(self@, name@) matches Some(model) && schema@
                    == schema_at(model, Seq::empty()),
                None => model_named(self@, name@) is None,
            },
    {
        proof {
            reveal_strlit("");
        }
        assert(""@ =~= Seq::<char>::empty());
        match self.find(name) {
            Some(model) => Some(Schema::new(model, "")),
            None => None,
        }
    }

    /// The entity that `field` holds or relates to, reached by the path of
    /// `field`. It is looked up only now: an entity may hold itself.
    pub fn enter(&self, field: &SchemaField) -> (found: Option<Schema>)
        ensures
            match found {
                Some(schema) => entered(self@, field@) == Some(schema@),
                None => entered(self@, field@) is None,
            },
    {
        proof {
            use_type_invariant(field);
        }
        match &field.decl.target {
            None => None,
            Some(target) => match self.find(target.as_str()) {
                None => None,
                Some(model) => Some(Schema::new(model, field.path.as_str())),
            },
        }
    }
}

/// An entity that holds itself can be entered, and a field read there stands
/// behind the name of the field that was entered, after a dot.
pub proof fn lemma_self_reference_path(models: Seq<ModelText>, model: ModelText, i: int, j: int)
    requires
        model_named(models, model.name) == Some(model),
        0 <= i < model.fields.len(),
        0 <= j < model.fields.len(),
        model.fields[i].direction is NoEdge,
        model.fields[i].target == Some(model.name),
        model.fields[i].name.len() > 0,
        model.fields[j].direction is NoEdge,
    ensures
        entered(models, schema_at(model, Seq::empty()).fields[i]) == Some(
            schema_at(model, model.fields[i].name),
        ),
        schema_at(model, model.fields[i].name).fields[j].path() == model.fields[i].name + seq!['.']
            + model.fields[j].name,
{
}

} // verus!
