//! `#[persist(...)]` attribute expansion.
use vstd::prelude::*;
use vstd::string::*;

use crate::collections;
use crate::derive::{AttributeError, Complaint, Place};
use crate::value::{Json, Object, Value};

verus! {

/// What an annotated type is persisted as.
#[derive(Clone, Copy, Debug, PartialEq, Eq, Structural)]
pub enum PersistKind {
    Component,
    Resource,
    Relationship,
}

/// An argument of the attribute.
#[derive(Debug)]
pub enum Argument {
    /// A single word.
    Word(String),
    /// A path of another form.
    Path,
    /// Anything else.
    Other,
}

/// The kind that a word names.
pub open spec fn kind_named(word: Seq<char>) -> Option<PersistKind> {
    if word == "component"@ {
        Some(PersistKind::Component)
    } else if word == "resource"@ {
        Some(PersistKind::Resource)
    } else if word == "relationship"@ {
        Some(PersistKind::Relationship)
    } else {
        None
    }
}

/// The kind that a word names.
fn kind_of_word(word: &str) -> (r: Option<PersistKind>)
    ensures
        r == kind_named(word@),
{
    if word.eq("component") {
        Some(PersistKind::Component)
    } else if word.eq("resource") {
        Some(PersistKind::Resource)
    } else if word.eq("relationship") {
        Some(PersistKind::Relationship)
    } else {
        None
    }
}

/// The kind that the arguments from `i` on name, where `found` was named before
/// them. Exactly one kind has to be named; the first argument that does not fit
/// is complained about.
pub open spec fn parsed_kind(
    args: Seq<Argument>,
    i: int,
    found: Option<PersistKind>,
) -> Result<PersistKind, Complaint>
    decreases args.len() - i,
{
    if i < 0 || i >= args.len() {
        match found {
            Some(kind) => Ok(kind),
            None => Err(
                Complaint {
                    place: Place::CallSite,
                    message:
                        "`#[persist]` requires `component`, `resource`, or `relationship`"@,
                },
            ),
        }
    } else {
        let place = Place::Argument(i as usize);
        match args[i] {
            Argument::Other => Err(
                Complaint {
                    place,
                    message: "expected `component`, `resource`, or `relationship`"@,
                },
            ),
            Argument::Path => Err(Complaint { place, message: "expected a simple ident"@ }),
            Argument::Word(word) => match kind_named(word@) {
                None => Err(
                    Complaint {
                        place,
                        message: "expected `component`, `resource`, or `relationship`"@,
                    },
                ),
                Some(kind) => match found {
                    Some(_) => Err(
                        Complaint {
                            place,
                            message:
                                "`#[persist]` accepts exactly one of `component`, `resource`, or `relationship`"@,
                        },
                    ),
                    None => parsed_kind(args, i + 1, Some(kind)),
                },
            },
        }
    }
}

/// The kind that the arguments of the attribute name.
pub fn parse_persist_kind(args: &Vec<Argument>) -> (r: Result<PersistKind, AttributeError>)
    ensures
        match r {
            Ok(kind) => parsed_kind(args@, 0, None) == Ok::<_, Complaint>(kind),
            Err(e) => parsed_kind(args@, 0, None) == Err::<PersistKind, _>(e@),
        },
{
    let mut found: Option<PersistKind> = None;
    let mut i: usize = 0;
    while i < args.len()
        invariant
            i <= args@.len(),
            parsed_kind(args@, 0, None) == parsed_kind(args@, i as int, found),
        decreases args@.len() - i,
    {
        let place: Place = Place::Argument(i);
        match &args[i] {
            Argument::Other => {
                return Err(
                    AttributeError::new(
                        place,
                        "expected `component`, `resource`, or `relationship`",
                    ),
                );
            },
            Argument::Path => {
                return Err(AttributeError::new(place, "expected a simple ident"));
            },
            Argument::Word(word) => match kind_of_word(word.as_str()) {
                None => {
                    return Err(
                        AttributeError::new(
                            place,
                            "expected `component`, `resource`, or `relationship`",
                        ),
                    );
                },
                Some(kind) => {
                    if found.is_some() {
                        return Err(
                            AttributeError::new(
                                place,
                                "`#[persist]` accepts exactly one of `component`, `resource`, or `relationship`",
                            ),
                        );
                    }
                    found = Some(kind);
                },
            },
        }
        i = i + 1;
    }
    match found {
        Some(kind) => Ok(kind),
        None => Err(
            AttributeError::new(
                Place::CallSite,
                "`#[persist]` requires `component`, `resource`, or `relationship`",
            ),
        ),
    }
}

/// The attribute is accepted exactly with one argument, a word that names a kind.
pub proof fn law_exactly_one_kind(args: Seq<Argument>)
    ensures
        parsed_kind(args, 0, None) is Ok <==> args.len() == 1 && args[0] is Word && kind_named(
            args[0]->Word_0@,
        ) is Some,
        parsed_kind(args, 0, None) is Ok ==> parsed_kind(args, 0, None) == Ok::<_, Complaint>(
            kind_named(args[0]->Word_0@)->0,
        ),
{
    reveal_with_fuel(parsed_kind, 3);
}

/// The fields of a struct.
#[derive(Debug)]
pub enum Fields {
    Unit,
    /// The names of the fields.
    Named(Vec<String>),
    /// The number of the fields.
    Unnamed(usize),
}

/// The annotated item.
#[derive(Debug)]
pub enum ItemShape {
    Struct { name: String, fields: Fields },
    Enum { name: String },
    Other,
}

/// The name of the item, where it is a struct or an enum.
pub open spec fn item_name(item: ItemShape) -> Option<Seq<char>> {
    match item {
        ItemShape::Struct { name, .. } => Some(name@),
        ItemShape::Enum { name } => Some(name@),
        ItemShape::Other => None,
    }
}

/// The name of the item, where it is a struct or an enum.
pub fn item_ident(item: &ItemShape) -> (r: Option<&String>)
    ensures
        match r {
            Some(name) => item_name(*item) == Some(name@),
            None => item_name(*item) is None,
        },
{
    match item {
        ItemShape::Struct { name, .. } => Some(name),
        ItemShape::Enum { name } => Some(name),
        ItemShape::Other => None,
    }
}

/// The name under which the only field of a struct is stored.
pub open spec fn only_field(fields: Fields) -> Option<Seq<char>> {
    match fields {
        Fields::Unnamed(n) => if n == 1 {
            Some("0"@)
        } else {
            None
        },
        Fields::Named(names) => if names@.len() == 1 {
            Some(names@[0]@)
        } else {
            None
        },
        Fields::Unit => None,
    }
}

/// True for a struct with exactly one field.
pub fn is_single_field_struct(fields: &Fields) -> (b: bool)
    ensures
        b == (only_field(*fields) is Some),
{
    match fields {
        Fields::Unnamed(n) => *n == 1,
        Fields::Named(names) => names.len() == 1,
        Fields::Unit => false,
    }
}

/// The name under which the only field of a struct is stored: its own, or `0`.
pub fn single_field_name(fields: &Fields) -> (r: Option<String>)
    ensures
        match r {
            Some(name) => only_field(*fields) == Some(name@),
            None => only_field(*fields) is None,
        },
{
    match fields {
        Fields::Unnamed(n) => if *n == 1 {
            Some("0".to_owned())
        } else {
            None
        },
        Fields::Named(names) => if names.len() == 1 {
            Some(names[0].clone())
        } else {
            None
        },
        Fields::Unit => None,
    }
}

/// Which bevy trait is derived.
#[derive(Clone, Copy, Debug, PartialEq, Eq, Structural)]
pub enum BevyDerive {
    Component,
    Resource,
    /// A relationship brings its own.
    Nothing,
}

/// When serde's traits are derived.
#[derive(Clone, Copy, Debug, PartialEq, Eq, Structural)]
pub enum SerdeDerive {
    Never,
    Always,
    /// Where the application has payloads on relationships.
    WithManyRelationships,
}

/// What the attribute expands to.
#[derive(Debug)]
pub struct Expansion {
    pub bevy: BevyDerive,
    pub serde: SerdeDerive,
    /// The field for which serde's traits are written out, under this name.
    pub single_field_serde: Option<String>,
    /// Everything that needs the `Persist` trait is only there where the
    /// application has payloads on relationships.
    pub gated: bool,
    /// The fields for which query methods are generated.
    pub field_methods: Vec<String>,
    pub register_fn: String,
    pub ctor_fn: String,
}

/// The mathematical content of an [`Expansion`].
#[verifier::ext_equal]
pub struct ExpansionModel {
    pub bevy: BevyDerive,
    pub serde: SerdeDerive,
    pub single_field_serde: Option<Seq<char>>,
    pub gated: bool,
    pub field_methods: Seq<Seq<char>>,
    pub register_fn: Seq<char>,
    pub ctor_fn: Seq<char>,
}

impl View for Expansion {
    type V = ExpansionModel;

    open spec fn view(&self) -> ExpansionModel {
        ExpansionModel {
            bevy: self.bevy,
            serde: self.serde,
            single_field_serde: match self.single_field_serde {
                Some(name) => Some(name@),
                None => None,
            },
            gated: self.gated,
            field_methods: collections::texts(self.field_methods@),
            register_fn: self.register_fn@,
            ctor_fn: self.ctor_fn@,
        }
    }
}

/// The bevy trait that a kind derives.
pub open spec fn bevy_derive(kind: PersistKind) -> BevyDerive {
    match kind {
        PersistKind::Component => BevyDerive::Component,
        PersistKind::Resource => BevyDerive::Resource,
        PersistKind::Relationship => BevyDerive::Nothing,
    }
}

/// When serde's traits are derived for an item. A struct with one field gets
/// them written out instead. A relationship of the bevy kind holds an entity
/// and cannot have them.
pub open spec fn serde_derive(kind: PersistKind, item: ItemShape) -> SerdeDerive {
    match item {
        ItemShape::Struct { fields, .. } => if only_field(fields) is Some {
            SerdeDerive::Never
        } else if kind == PersistKind::Relationship {
            SerdeDerive::WithManyRelationships
        } else {
            SerdeDerive::Always
        },
        _ => SerdeDerive::Always,
    }
}

/// The field for which serde's traits are written out.
pub open spec fn written_serde(
    kind: PersistKind,
    item: ItemShape,
    many_relationships: bool,
) -> Option<Seq<char>> {
    match item {
        ItemShape::Struct { fields, .. } => if kind != PersistKind::Relationship
            || many_relationships {
            only_field(fields)
        } else {
            None
        },
        _ => None,
    }
}

/// The named fields of an item.
pub open spec fn named_fields(item: ItemShape) -> Seq<Seq<char>> {
    match item {
        ItemShape::Struct { fields: Fields::Named(names), .. } => collections::texts(names@),
        _ => Seq::empty(),
    }
}

/// What the attribute expands to on an item.
pub open spec fn expansion(
    kind: PersistKind,
    item: ItemShape,
    many_relationships: bool,
) -> Result<ExpansionModel, Complaint> {
    match item_name(item) {
        None => Err(
            Complaint {
                place: Place::Item,
                message: "`#[persist]` can only be applied to structs or enums"@,
            },
        ),
        Some(name) => Ok(
            ExpansionModel {
                bevy: bevy_derive(kind),
                serde: serde_derive(kind, item),
                single_field_serde: written_serde(kind, item, many_relationships),
                gated: kind == PersistKind::Relationship,
                field_methods: named_fields(item),
                register_fn: "__persist_register_"@ + name,
                ctor_fn: "__persist_ctor_"@ + name,
            },
        ),
    }
}

fn copy_texts(names: &Vec<String>) -> (r: Vec<String>)
    ensures
        collections::texts(r@) == collections::texts(names@),
{
    let mut r: Vec<String> = Vec::new();
    let mut i: usize = 0;
    while i < names.len()
        invariant
            i <= names@.len(),
            r@.len() == i,
            forall|j: int| 0 <= j < i ==> (#[trigger] r@[j])@ == names@[j]@,
        decreases names@.len() - i,
    {
        r.push(names[i].clone());
        i = i + 1;
    }
    assert(collections::texts(r@) =~= collections::texts(names@));
    r
}

/// What the attribute expands to on an item. `many_relationships` tells whether
/// relationships carry payloads.
pub fn expand(kind: PersistKind, item: &ItemShape, many_relationships: bool) -> (r: Result<
    Expansion,
    AttributeError,
>)
    ensures
        match r {
            Ok(e) => expansion(kind, *item, many_relationships) == Ok::<_, Complaint>(e@),
            Err(e) => expansion(kind, *item, many_relationships) == Err::<ExpansionModel, _>(e@),
        },
{
    let name: String = match item_ident(item) {
        Some(name) => name.clone(),
        None => {
            return Err(
                AttributeError::new(
                    Place::Item,
                    "`#[persist]` can only be applied to structs or enums",
                ),
            );
        },
    };
    let bevy: BevyDerive = match kind {
        PersistKind::Component => BevyDerive::Component,
        PersistKind::Resource => BevyDerive::Resource,
        PersistKind::Relationship => BevyDerive::Nothing,
    };
    let relationship: bool = kind == PersistKind::Relationship;
    let mut serde: SerdeDerive = SerdeDerive::Always;
    let mut single_field_serde: Option<String> = None;
    let mut field_methods: Vec<String> = Vec::new();
    assert(collections::texts(field_methods@) =~= Seq::empty());
    match item {
        ItemShape::Struct { fields, .. } => {
            if is_single_field_struct(fields) {
                serde = SerdeDerive::Never;
                if !relationship || many_relationships {
                    single_field_serde = single_field_name(fields);
                }
            } else if relationship {
                serde = SerdeDerive::WithManyRelationships;
            }
            match fields {
                Fields::Named(names) => {
                    field_methods = copy_texts(names);
                },
                _ => {},
            }
        },
        _ => {},
    }
    let mut register_fn: String = "__persist_register_".to_owned();
    register_fn.append(name.as_str());
    let mut ctor_fn: String = "__persist_ctor_".to_owned();
    ctor_fn.append(name.as_str());
    let expansion = Expansion {
        bevy,
        serde,
        single_field_serde,
        gated: relationship,
        field_methods,
        register_fn,
        ctor_fn,
    };
    Ok(expansion)
}

/// Every persisted component and resource has serde's traits exactly once:
/// derived, or written out for its only field.
pub proof fn law_serde_exactly_once(
    kind: PersistKind,
    item: ItemShape,
    many_relationships: bool,
)
    requires
        kind != PersistKind::Relationship,
    ensures
        expansion(kind, item, many_relationships) matches Ok(e) ==> ((e.serde
            == SerdeDerive::Always) != (e.single_field_serde is Some)),
{
}

/// The JSON of a struct with one field: an object with that field, so that
/// adding more fields later does not change the shape on disk.
pub open spec fn single_field_json(name: Seq<char>, value: Json) -> Json {
    Json::Object(Map::empty().insert(name, value))
}

/// The JSON of the only field of a struct: the field of the object, or the
/// whole value where it is no object with that field (the older bare form).
pub open spec fn single_field_of(json: Json, name: Seq<char>) -> Json {
    match crate::value::field_of(json, name) {
        Some(value) => value,
        None => json,
    }
}

/// The JSON of a struct with one field.
pub fn write_single_field(name: &str, value: Value) -> (r: Value)
    ensures
        r@ == single_field_json(name@, value@),
{
    let mut object: Object = Object::new();
    object.insert(name.to_owned(), value);
    Value::Object(object)
}

/// The JSON of the only field of a struct.
pub fn read_single_field(json: Value, name: &str) -> (r: Value)
    ensures
        r@ == single_field_of(json@, name@),
{
    match json.get(name) {
        Some(value) => value.clone(),
        None => json,
    }
}

/// A struct with one field reads back what it wrote.
pub proof fn law_single_field_round_trip(name: Seq<char>, value: Json)
    ensures
        single_field_of(single_field_json(name, value), name) == value,
{
}

/// The older bare form is still read: a value that is no object with a field of
/// that name stands for itself.
pub proof fn law_single_field_accepts_bare_form(name: Seq<char>, value: Json)
    requires
        crate::value::field_of(value, name) is None,
    ensures
        single_field_of(value, name) == value,
{
}

} // verus!
