//! A reference to another entity that may hold the entity, only its key, or
//! nothing yet.

use vstd::prelude::*;

verus! {

/// Why an entity could give no key.
#[derive(Debug)]
pub struct KeyError {
    /// The cause, in words.
    pub reason: String,
}

/// An entity that can be told apart by a key, once it has one.
pub trait IntoKey {
    /// The key of the entity, or why it has none.
    fn into_key(&self) -> (key: Result<String, KeyError>);
}

/// A reference to one entity.
#[derive(Debug)]
pub enum Foreign<T> {
    /// Only the key of the entity is known.
    Key(String),
    /// The entity itself is here.
    Loaded(T),
    /// The relation exists, and nothing of it was fetched.
    Unloaded,
}

/// What a reference is written as where `extracted` is what the entity it
/// holds, if it holds one, gave as its key: the key, or nothing for a
/// reference that is not loaded.
pub open spec fn folded<T>(state: Foreign<T>, extracted: Result<String, KeyError>) -> Result<
    Option<String>,
    KeyError,
> {
    match state {
        Foreign::Key(key) => Ok(Some(key)),
        Foreign::Loaded(_) => match extracted {
            Ok(key) => Ok(Some(key)),
            Err(error) => Err(error),
        },
        Foreign::Unloaded => Ok(None),
    }
}

/// The reference that an input stands for, where `text` is the input read
/// as a string, `object` the input read as an entity, and `null` says
/// whether it is null or absent. The first reading that succeeded counts, in
/// this order; where none did, the input stands for no reference.
pub open spec fn decoded<T>(text: Option<String>, object: Option<T>, null: bool) -> Option<
    Foreign<T>,
> {
    match text {
        Some(key) => Some(Foreign::Key(key)),
        None => match object {
            Some(entity) => Some(Foreign::Loaded(entity)),
            None => if null {
                Some(Foreign::Unloaded)
            } else {
                None
            },
        },
    }
}

impl<T> Default for Foreign<T> {
    fn default() -> (out: Self)
        ensures
            out is Unloaded,
    {
        Foreign::Unloaded
    }
}

impl<T: IntoKey> Foreign<T> {
    /// The key of the entity: the key held, or the one that the entity held
    /// gives. `None` where nothing is loaded or the entity has no key.
    pub fn key(&self) -> (key: Option<String>)
        ensures
            match *self {
                Foreign::Key(held) => key == Some(held),
                Foreign::Loaded(entity) => match key {
                    Some(given) => call_ensures(T::into_key, (&entity,), Ok(given)),
                    None => exists|error: KeyError|
                        call_ensures(T::into_key, (&entity,), Err(error)),
                },
                Foreign::Unloaded => key is None,
            },
    {
        match self {
            Foreign::Key(held) => Some(held.clone()),
            Foreign::Loaded(entity) => match entity.into_key() {
                Ok(given) => Some(given),
                Err(_) => None,
            },
            Foreign::Unloaded => None,
        }
    }

    /// What the reference is written as: its key, nothing where it is not
    /// loaded, or the reason why the entity it holds has no key.
    pub fn fold(&self) -> (out: Result<Option<String>, KeyError>)
        ensures
            match *self {
                Foreign::Loaded(entity) => exists|extracted: Result<String, KeyError>|
                    call_ensures(T::into_key, (&entity,), extracted) && out == folded(
                        *self,
                        extracted,
                    ),
                _ => forall|extracted: Result<String, KeyError>| out == folded(*self, extracted),
            },
    {
        match self {
            Foreign::Key(held) => Ok(Some(held.clone())),
            Foreign::Loaded(entity) => {
                let extracted = entity.into_key();
                let ghost given = extracted;
                let out = match extracted {
                    Ok(key) => Ok(Some(key)),
                    Err(error) => Err(error),
                };
                assert(call_ensures(T::into_key, (entity,), given) && out == folded(*self, given));
                out
            },
            Foreign::Unloaded => Ok(None),
        }
    }
}

impl<T> Foreign<T> {
    /// The entity, where it is here.
    pub fn value(&self) -> (value: Option<&T>)
        ensures
            match *self {
                Foreign::Loaded(entity) => value == Some(&entity),
                _ => value is None,
            },
    {
        match self {
            Foreign::Loaded(entity) => Some(entity),
            _ => None,
        }
    }

    /// The reference that an input stands for, from what reading it as a
    /// string, as an entity and as null gave.
    pub fn decode(text: Option<String>, object: Option<T>, null: bool) -> (out: Option<Foreign<T>>)
        ensures
            out == decoded(text, object, null),
    {
        match text {
            Some(key) => Some(Foreign::Key(key)),
            None => match object {
                Some(entity) => Some(Foreign::Loaded(entity)),
                None => if null {
                    Some(Foreign::Unloaded)
                } else {
                    None
                },
            },
        }
    }
}

/// A reference that holds an entity with a key is written as that key, and
/// the key read back as a string stands for a reference that holds exactly
/// that key, whatever else the input could be read as.
pub proof fn lemma_key_round_trip<T>(entity: T, id: String, object: Option<T>, null: bool)
    ensures
        folded(Foreign::Loaded(entity), Ok(id)) == Ok::<Option<String>, KeyError>(Some(id)),
        decoded(Some(id), object, null) == Some(Foreign::<T>::Key(id)),
{
}

/// A null input stands for a reference that is not loaded, never for a key
/// or an entity.
pub proof fn lemma_null_is_unloaded<T>()
    ensures
        decoded::<T>(None, None, true) == Some(Foreign::<T>::Unloaded),
{
}

/// A reference to several entities, in order.
#[derive(Debug)]
pub enum ForeignVec<T> {
    /// Only the keys of the entities are known.
    Key(Vec<String>),
    /// The entities themselves are here.
    Loaded(Vec<T>),
    /// The relation exists, and nothing of it was fetched.
    Unloaded,
}

/// Each of `entities` gives the key at its place in `keys`.
pub open spec fn gives_keys<T: IntoKey>(entities: Seq<T>, keys: Seq<String>) -> bool {
    &&& keys.len() == entities.len()
    &&& forall|i: int|
        0 <= i < entities.len() ==> call_ensures(T::into_key, (&entities[i],), Ok(#[trigger] keys[i]))
}

/// The entity at `at` is the first of `entities` that gives no key, and
/// `error` is why.
pub open spec fn fails_at<T: IntoKey>(entities: Seq<T>, at: int, error: KeyError) -> bool {
    &&& 0 <= at < entities.len()
    &&& call_ensures(T::into_key, (&entities[at],), Err(error))
    &&& exists|keys: Seq<String>| gives_keys(entities.take(at), keys)
}

/// The references that an input stands for, where `texts` is the input read
/// as a list of strings, `objects` the input read as a list of entities, and
/// `null` says whether it is null or absent. The first reading that
/// succeeded counts, in this order.
pub open spec fn decoded_list<T>(
    texts: Option<Vec<String>>,
    objects: Option<Vec<T>>,
    null: bool,
) -> Option<ForeignVec<T>> {
    match texts {
        Some(keys) => Some(ForeignVec::Key(keys)),
        None => match objects {
            Some(entities) => Some(ForeignVec::Loaded(entities)),
            None => if null {
                Some(ForeignVec::Unloaded)
            } else {
                None
            },
        },
    }
}

impl<T> Default for ForeignVec<T> {
    fn default() -> (out: Self)
        ensures
            out is Unloaded,
    {
        ForeignVec::Unloaded
    }
}

impl<T: IntoKey> ForeignVec<T> {
    /// What the reference is written as: the keys held, the key of each
    /// entity held, nothing where it is not loaded, or the reason why the
    /// first entity without a key has none.
    pub fn fold(&self) -> (out: Result<Option<Vec<String>>, KeyError>)
        ensures
            match *self {
                ForeignVec::Key(held) => out matches Ok(Some(keys)) && keys@ == held@,
                ForeignVec::Loaded(entities) => match out {
                    Ok(Some(keys)) => gives_keys(entities@, keys@),
                    Ok(None) => false,
                    Err(error) => exists|at: int| fails_at(entities@, at, error),
                },
                ForeignVec::Unloaded => out matches Ok(None),
            },
    {
        match self {
            ForeignVec::Key(held) => {
                let mut keys: Vec<String> = Vec::new();
                let mut i: usize = 0;
                while i < held.len()
                    invariant
                        i <= held.len(),
                        keys@ == held@.take(i as int),
                    decreases held.len() - i,
                {
                    keys.push(held[i].clone());
                    assert(keys@ =~= held@.take(i + 1));
                    i += 1;
                }
                assert(held@.take(held.len() as int) =~= held@);
                Ok(Some(keys))
            },
            ForeignVec::Loaded(entities) => {
                let mut keys: Vec<String> = Vec::new();
                let mut i: usize = 0;
                assert(entities@.take(0) =~= Seq::<T>::empty());
                while i < entities.len()
                    invariant
                        i <= entities.len(),
                        *self matches ForeignVec::Loaded(all) && all == *entities,
                        gives_keys(entities@.take(i as int), keys@),
                    decreases entities.len() - i,
                {
                    match entities[i].into_key() {
                        Ok(key) => {
                            keys.push(key);
                        },
                        Err(error) => {
                            assert(fails_at(entities@, i as int, error));
                            let out: Result<Option<Vec<String>>, KeyError> = Err(error);
                            assert(fails_at(entities@, i as int, out->Err_0));
                            return out;
                        },
                    }
                    i += 1;
                }
                assert(entities@.take(entities.len() as int) =~= entities@);
                Ok(Some(keys))
            },
            ForeignVec::Unloaded => Ok(None),
        }
    }

    /// The keys of the entities: those held, or those that the entities held
    /// give. `None` where nothing is loaded or an entity has no key.
    pub fn key(&self) -> (keys: Option<Vec<String>>)
        ensures
            match *self {
                ForeignVec::Key(held) => keys matches Some(keys) && keys@ == held@,
                ForeignVec::Loaded(entities) => match keys {
                    Some(keys) => gives_keys(entities@, keys@),
                    None => exists|at: int, error: KeyError| fails_at(entities@, at, error),
                },
                ForeignVec::Unloaded => keys is None,
            },
    {
        match self.fold() {
            Ok(keys) => keys,
            Err(_) => None,
        }
    }
}

impl<T> ForeignVec<T> {
    /// The entities, where they are here.
    pub fn value(&self) -> (value: Option<&Vec<T>>)
        ensures
            match *self {
                ForeignVec::Loaded(entities) => value == Some(&entities),
                _ => value is None,
            },
    {
        match self {
            ForeignVec::Loaded(entities) => Some(entities),
            _ => None,
        }
    }

    /// The references that an input stands for, from what reading it as a
    /// list of strings, as a list of entities and as null gave.
    pub fn decode(texts: Option<Vec<String>>, objects: Option<Vec<T>>, null: bool) -> (out: Option<
        ForeignVec<T>,
    >)
        ensures
            out == decoded_list(texts, objects, null),
    {
        match texts {
            Some(keys) => Some(ForeignVec::Key(keys)),
            None => match objects {
                Some(entities) => Some(ForeignVec::Loaded(entities)),
                None => if null {
                    Some(ForeignVec::Unloaded)
                } else {
                    None
                },
            },
        }
    }
}

} // verus!
