//! The loading of schemas from installed definitions.
//!
//! A schema is loaded in steps. A step ends with a schema, with none, or with a
//! definition that must be read before the loading can go on. Definitions that
//! refer to others wait on a stack until those have been loaded.

use crate::codegen::types::{Field, ParsedMessage};
use crate::dynamic::registry;
use crate::dynamic::registry::SchemaRegistry;
use crate::dynamic::schema;
use crate::dynamic::schema::{
    array_of, builtin_type, qualified_name, FieldSchema, FieldType, MessageSchema,
};
use crate::text;
use crate::text::{join2, split_nonempty, text_eq};
use std::sync::Arc;
use vstd::prelude::*;
use vstd::string::*;

verus! {

// ---------------------------------------------------------------------------
// Names and places
// ---------------------------------------------------------------------------

/// The package and the name in `pkg/msg/Type` or `pkg/Type`. Empty parts do not
/// count.
pub open spec fn name_parts(name: Seq<char>) -> Option<(Seq<char>, Seq<char>)> {
    let parts = text::nonempty_pieces(name, '/');
    if parts.len() == 3 {
        Some((parts[0], parts[2]))
    } else if parts.len() == 2 {
        Some((parts[0], parts[1]))
    } else {
        None
    }
}

/// The views of a pair of strings.
pub open spec fn pair_view(p: Option<(String, String)>) -> Option<(Seq<char>, Seq<char>)> {
    match p {
        Some((a, b)) => Some((a@, b@)),
        None => None,
    }
}

/// Splits `pkg/msg/Type` or `pkg/Type` into the package and the name.
pub fn split_ros_type_name(name: &str) -> (r: Option<(String, String)>)
    ensures
        pair_view(r) == name_parts(name@),
{
    let parts = split_nonempty(name, '/');
    assert(text::texts(parts@).len() == parts@.len());
    assert(forall|i: int| 0 <= i < parts@.len() ==> text::texts(parts@)[i] == #[trigger] parts@[i]@);
    if parts.len() == 3 {
        Some((parts[0].clone(), parts[2].clone()))
    } else if parts.len() == 2 {
        Some((parts[0].clone(), parts[1].clone()))
    } else {
        None
    }
}

/// The names that never refer to a message.
pub open spec fn primitive_name(base: Seq<char>) -> bool {
    schema::primitive(base) is Some || base == "wstring"@
}

/// Whether a name never refers to a message.
pub fn is_primitive_field_type(base: &str) -> (r: bool)
    ensures
        r == primitive_name(base@),
{
    if text_eq(base, "wstring") {
        return true;
    }
    schema::primitive_type(base).is_some()
}

/// Where a definition may be: below `prefix`, at
/// `share/<package>/msg/<name>.msg`.
pub open spec fn definition_place(
    prefix: Seq<char>,
    package: Seq<char>,
    name: Seq<char>,
) -> Seq<Seq<char>> {
    seq![prefix, "share"@, package, "msg"@, name + ".msg"@]
}

/// The places where a definition may be: one below each prefix in a list with
/// `:` between the prefixes.
pub open spec fn places_of(
    prefixes: Seq<char>,
    package: Seq<char>,
    name: Seq<char>,
) -> Seq<Seq<Seq<char>>> {
    text::nonempty_pieces(prefixes, ':').map_values(
        |prefix: Seq<char>| definition_place(prefix, package, name),
    )
}

/// The places where a definition may be, by their path components: one for
/// each prefix in a list with `:` between the prefixes. Empty prefixes do not
/// count.
pub fn msg_file_candidates(prefixes: &str, package: &str, name: &str) -> (v: Vec<Vec<String>>)
    ensures
        v@.len() == places_of(prefixes@, package@, name@).len(),
        forall|i: int|
            0 <= i < v@.len() ==> text::texts(#[trigger] v@[i]@) == places_of(
                prefixes@,
                package@,
                name@,
            )[i],
{
    let all = split_nonempty(prefixes, ':');
    let ghost given = text::texts(all@);
    let mut v: Vec<Vec<String>> = Vec::new();
    let mut i: usize = 0;
    while i < all.len()
        invariant
            i <= all@.len(),
            v@.len() == i,
            given == text::texts(all@),
            forall|j: int|
                0 <= j < i ==> text::texts(#[trigger] v@[j]@) == definition_place(
                    given[j],
                    package@,
                    name@,
                ),
        decreases all@.len() - i,
    {
        let mut place: Vec<String> = Vec::new();
        place.push(all[i].clone());
        place.push("share".to_owned());
        place.push(package.to_owned());
        place.push("msg".to_owned());
        place.push(join2(name, ".msg"));
        assert(text::texts(place@) =~= definition_place(given[i as int], package@, name@));
        v.push(place);
        i += 1;
    }
    v
}

/// `r` is the first of the places at which there is a file.
pub open spec fn is_first_present(present: Seq<bool>, r: Option<usize>) -> bool {
    match r {
        Some(i) => {
            &&& i < present.len()
            &&& present[i as int]
            &&& forall|j: int| 0 <= j < i ==> !#[trigger] present[j]
        },
        None => forall|j: int| 0 <= j < present.len() ==> !#[trigger] present[j],
    }
}

/// The first of the places at which there is a file.
pub fn find_msg_file(present: &Vec<bool>) -> (r: Option<usize>)
    ensures
        is_first_present(present@, r),
{
    let mut i: usize = 0;
    while i < present.len()
        invariant
            i <= present@.len(),
            forall|j: int| 0 <= j < i ==> !#[trigger] present@[j],
        decreases present@.len() - i,
    {
        if present[i] {
            return Some(i);
        }
        i += 1;
    }
    None
}

// ---------------------------------------------------------------------------
// References
// ---------------------------------------------------------------------------

/// `after` is `before` with `package` written in where a message is referred to
/// without its package.
pub open spec fn with_package(before: Field, package: Seq<char>, after: Field) -> bool {
    &&& after.name == before.name
    &&& after.field_type.base_type == before.field_type.base_type
    &&& after.field_type.array == before.field_type.array
    &&& after.field_type.string_bound == before.field_type.string_bound
    &&& if before.field_type.package is None && before.field_type.string_bound is None
        && !primitive_name(before.field_type.base_type@) {
        after.field_type.package matches Some(p) && p@ == package
    } else {
        after.field_type.package == before.field_type.package
    }
}

/// `after` is `before` with `package` written in where its fields refer to a
/// message without the package.
pub open spec fn within_package(
    before: ParsedMessage,
    package: Seq<char>,
    after: ParsedMessage,
) -> bool {
    &&& after.package == before.package
    &&& after.name == before.name
    &&& after.path == before.path
    &&& after.fields@.len() == before.fields@.len()
    &&& forall|i: int|
        0 <= i < before.fields@.len() ==> with_package(
            before.fields@[i],
            package,
            #[trigger] after.fields@[i],
        )
}

/// Writes `package` in where a field refers to a message without its package.
pub fn qualify_references(parsed: ParsedMessage, package: &str) -> (r: ParsedMessage)
    ensures
        within_package(parsed, package@, r),
{
    let ParsedMessage { package: own, name, path, fields: written } = parsed;
    let mut fields: Vec<Field> = Vec::new();
    for f in it: written
        invariant
            it.seq() == written@,
            fields@.len() == it.index(),
            forall|i: int|
                0 <= i < it.index() ==> with_package(
                    written@[i],
                    package@,
                    #[trigger] fields@[i],
                ),
    {
        let mut f = f;
        if f.field_type.package.is_none() && f.field_type.string_bound.is_none()
            && !is_primitive_field_type(f.field_type.base_type.as_str()) {
            f.field_type.package = Some(package.to_owned());
        }
        fields.push(f);
    }
    ParsedMessage { package: own, name, path, fields }
}

/// The message that the reference to `base` of `package` is to.
pub open spec fn referred(package: Seq<char>, base: Seq<char>) -> Option<(Seq<char>, Seq<char>)> {
    name_parts(schema::qualified(package, base))
}

/// What a registry has for the reference to `base` of `package`.
pub open spec fn cached(
    known: Map<Seq<char>, Arc<MessageSchema>>,
    package: Seq<char>,
    base: Seq<char>,
) -> Option<Arc<MessageSchema>> {
    match referred(package, base) {
        Some((p, n)) => registry::held(known, schema::qualified(p, n)),
        None => None,
    }
}

/// The answers of a registry.
pub open spec fn answers_from(known: Map<Seq<char>, Arc<MessageSchema>>) -> schema::Answers {
    |package: Seq<char>, base: Seq<char>, found: Option<Arc<MessageSchema>>|
        found == cached(known, package, base)
}

/// What is wanting for the type of a field.
pub ghost enum Want {
    /// Nothing.
    Nothing,
    /// The definition of a message, by its package and name.
    Definition(Seq<char>, Seq<char>),
    /// A type that can be had at all.
    Sense,
}

/// What is wanting for the type of `field`.
pub open spec fn wanted(field: Field, known: Map<Seq<char>, Arc<MessageSchema>>) -> Want {
    let base = field.field_type.base_type@;
    if schema::known_type(base) is Some {
        Want::Nothing
    } else {
        match field.field_type.package {
            None => Want::Sense,
            Some(p) => match referred(p@, base) {
                None => Want::Sense,
                Some((package, name)) => if known.contains_key(schema::qualified(package, name)) {
                    Want::Nothing
                } else {
                    Want::Definition(package, name)
                },
            },
        }
    }
}

/// What is wanting for the type of a field, or the type.
enum Progress {
    Type(FieldType),
    Definition(String, String),
    Sense,
}

/// Finds the type of `field` in what is known.
fn progress(field: &Field, known: &SchemaRegistry) -> (r: Progress)
    ensures
        match r {
            Progress::Type(t) => {
                &&& wanted(*field, known@) is Nothing
                &&& schema::is_field_type(*field, answers_from(known@), Ok(t))
            },
            Progress::Definition(p, n) => wanted(*field, known@) == Want::Definition(p@, n@),
            Progress::Sense => wanted(*field, known@) is Sense,
        },
{
    let ghost answers = answers_from(known@);
    let base = field.field_type.base_type.as_str();
    match builtin_type(base) {
        Some(t) => {
            proof {
                let found = Ok::<FieldType, schema::DynamicError>(t);
                assert(schema::is_base_type(base@, field.field_type.package, answers, found));
            }
            return Progress::Type(array_of(t, field.field_type.array));
        },
        None => {},
    }
    match &field.field_type.package {
        None => Progress::Sense,
        Some(p) => match split_ros_type_name(qualified_name(p.as_str(), base).as_str()) {
            None => Progress::Sense,
            Some((package, name)) => {
                match known.get(qualified_name(package.as_str(), name.as_str()).as_str()) {
                    Some(s) => {
                        let t = FieldType::Message(s);
                        proof {
                            let found = Ok::<FieldType, schema::DynamicError>(t);
                            assert(answers(p@, base@, Some(s)));
                            assert(schema::is_reference(Some(s), p@, base@, found));
                            assert(schema::is_base_type(
                                base@,
                                field.field_type.package,
                                answers,
                                found,
                            ));
                        }
                        Progress::Type(array_of(t, field.field_type.array))
                    },
                    None => Progress::Definition(package, name),
                }
            },
        },
    }
}

// ---------------------------------------------------------------------------
// Loading
// ---------------------------------------------------------------------------

/// A definition whose first fields have their types.
pub struct Draft {
    pub parsed: ParsedMessage,
    pub fields: Vec<FieldSchema>,
}

/// `fields` are the first fields of `draft`: those that had their types, then
/// one that refers to `answer`, if there is an answer, then those whose types
/// are found in what is known.
#[verifier::opaque]
pub open spec fn continues(
    draft: Draft,
    answer: Option<Arc<MessageSchema>>,
    known: Map<Seq<char>, Arc<MessageSchema>>,
    fields: Seq<FieldSchema>,
) -> bool {
    let written = draft.parsed.fields@;
    let start = draft.fields@.len();
    &&& start + (if answer is Some { 1int } else { 0 }) <= fields.len() <= written.len()
    &&& forall|j: int|
        #![trigger fields[j]]
        0 <= j < fields.len() ==> {
            if j < start {
                fields[j] == draft.fields@[j]
            } else {
                &&& fields[j].name@ == written[j].name@
                &&& if j == start && answer is Some {
                    fields[j].field_type == schema::arrayed(
                        FieldType::Message(answer->0),
                        written[j].field_type.array,
                    )
                } else {
                    schema::is_field_type(
                        written[j],
                        answers_from(known),
                        Ok(fields[j].field_type),
                    )
                }
            }
        }
}

/// `schema` is the schema of `draft`, continued with `answer` and what is known.
pub open spec fn finishes(
    draft: Draft,
    answer: Option<Arc<MessageSchema>>,
    known: Map<Seq<char>, Arc<MessageSchema>>,
    schema: Arc<MessageSchema>,
) -> bool {
    &&& schema.full_name@ == schema::qualified(draft.parsed.package@, draft.parsed.name@)
    &&& schema.package@ == draft.parsed.package@
    &&& schema.name@ == draft.parsed.name@
    &&& schema.type_hash is None
    &&& schema.fields@.len() == draft.parsed.fields@.len()
    &&& continues(draft, answer, known, schema.fields@)
}

/// A registry after the registration of schemas, in their order.
pub open spec fn registered(
    known: Map<Seq<char>, Arc<MessageSchema>>,
    built: Seq<Arc<MessageSchema>>,
) -> Map<Seq<char>, Arc<MessageSchema>>
    decreases built.len(),
{
    if built.len() == 0 {
        known
    } else {
        registered(known, built.drop_last()).insert(built.last().full_name@, built.last())
    }
}

/// The schema that the `i`th draft from the top of the stack waited for.
pub open spec fn awaited(built: Seq<Arc<MessageSchema>>, i: int) -> Option<Arc<MessageSchema>> {
    if i == 0 {
        None
    } else {
        Some(built[i - 1])
    }
}

/// `built` are the schemas of the drafts at the top of the stack, from the top
/// down. Each is registered before the next is finished, and is what the next
/// draft waited for.
#[verifier::opaque]
pub open spec fn unwinds(
    stack: Seq<Draft>,
    known: Map<Seq<char>, Arc<MessageSchema>>,
    built: Seq<Arc<MessageSchema>>,
) -> bool {
    &&& built.len() <= stack.len()
    &&& forall|i: int|
        0 <= i < built.len() ==> finishes(
            stack[stack.len() - 1 - i],
            awaited(built, i),
            registered(known, built.take(i)),
            #[trigger] built[i],
        )
}

/// How a step of a loading ends.
pub enum LoadStep {
    /// The definition of a message must be read.
    Read { package: String, name: String },
    /// The loading is over, with a schema or with none.
    Done(Option<Arc<MessageSchema>>),
}

/// A schema that is being loaded: the drafts that wait, the one that was begun
/// last on top, and the package of the definition that must be read.
pub struct Loading {
    stack: Vec<Draft>,
    package: String,
}

impl Loading {
    /// The drafts that wait.
    pub closed spec fn stack(&self) -> Seq<Draft> {
        self.stack@
    }

    /// The package of the definition that must be read.
    pub closed spec fn package(&self) -> Seq<char> {
        self.package@
    }

    /// Every draft that waits has a field without a type.
    #[verifier::type_invariant]
    pub closed spec fn valid(&self) -> bool {
        all_wait(self.stack@)
    }
}

/// Every draft has a field without a type.
pub open spec fn all_wait(stack: Seq<Draft>) -> bool {
    forall|i: int| 0 <= i < stack.len() ==> waits(#[trigger] stack[i])
}

/// The draft has a field without a type.
pub open spec fn waits(draft: Draft) -> bool {
    draft.fields@.len() < draft.parsed.fields@.len()
}

/// `step` and `after` are what comes of `stack` with what is known: as many
/// drafts as can be finished are, and `now` is what is known then.
pub open spec fn is_step(
    stack: Seq<Draft>,
    known: Map<Seq<char>, Arc<MessageSchema>>,
    built: Seq<Arc<MessageSchema>>,
    now: Map<Seq<char>, Arc<MessageSchema>>,
    after: Loading,
    step: LoadStep,
) -> bool {
    let left = stack.len() - built.len();
    &&& unwinds(stack, known, built)
    &&& now == registered(known, built)
    &&& match step {
        LoadStep::Done(Some(s)) => {
            &&& left == 0
            &&& s == built.last()
            &&& after.stack().len() == 0
        },
        LoadStep::Done(None) => {
            &&& left > 0
            &&& after.stack().len() == 0
            &&& exists|fields: Seq<FieldSchema>| #[trigger]
                continues(stack[left - 1], awaited(built, built.len() as int), now, fields)
                    && fields.len() < stack[left - 1].parsed.fields@.len() && wanted(
                    stack[left - 1].parsed.fields@[fields.len() as int],
                    now,
                ) is Sense
        },
        LoadStep::Read { package, name } => {
            let top = after.stack().last();
            &&& left > 0
            &&& after.package() == package@
            &&& after.stack().len() == left
            &&& forall|i: int| 0 <= i < left - 1 ==> #[trigger] after.stack()[i] == stack[i]
            &&& top.parsed == stack[left - 1].parsed
            &&& continues(stack[left - 1], awaited(built, built.len() as int), now, top.fields@)
            &&& top.fields@.len() < top.parsed.fields@.len()
            &&& wanted(top.parsed.fields@[top.fields@.len() as int], now) == Want::Definition(
                package@,
                name@,
            )
        },
    }
}

/// How far a draft can be taken.
enum Taken {
    Finished(Arc<MessageSchema>),
    Waits(Draft, String, String),
    Fails,
}

/// Takes a draft as far as it goes.
fn take_draft(draft: Draft, answer: Option<Arc<MessageSchema>>, known: &SchemaRegistry) -> (r:
    Taken)
    requires
        draft.fields@.len() + (if answer is Some { 1int } else { 0 }) <= draft.parsed.fields@.len(),
    ensures
        match r {
            Taken::Finished(s) => finishes(draft, answer, known@, s),
            Taken::Waits(d, package, name) => {
                &&& d.parsed == draft.parsed
                &&& continues(draft, answer, known@, d.fields@)
                &&& waits(d)
                &&& wanted(d.parsed.fields@[d.fields@.len() as int], known@) == Want::Definition(
                    package@,
                    name@,
                )
            },
            Taken::Fails => exists|fields: Seq<FieldSchema>| #[trigger]
                continues(draft, answer, known@, fields) && fields.len()
                    < draft.parsed.fields@.len() && wanted(
                    draft.parsed.fields@[fields.len() as int],
                    known@,
                ) is Sense,
        },
{
    reveal(continues);
    let Draft { parsed, fields: start } = draft;
    let ghost begun = draft;
    let mut fields = start;
    match answer {
        Some(s) => {
            let field = &parsed.fields[fields.len()];
            fields.push(
                FieldSchema {
                    name: field.name.clone(),
                    field_type: array_of(FieldType::Message(s), field.field_type.array),
                },
            );
        },
        None => {},
    }
    while fields.len() < parsed.fields.len()
        invariant
            begun == draft,
            parsed == begun.parsed,
            continues(begun, answer, known@, fields@),
        decreases parsed.fields@.len() - fields@.len(),
    {
        reveal(continues);
        let i: usize = fields.len();
        match progress(&parsed.fields[i], known) {
            Progress::Type(t) => {
                let name = parsed.fields[i].name.clone();
                fields.push(FieldSchema { name, field_type: t });
            },
            Progress::Definition(package, name) => {
                return Taken::Waits(Draft { parsed, fields }, package, name);
            },
            Progress::Sense => {
                assert(continues(begun, answer, known@, fields@));
                return Taken::Fails;
            },
        }
    }
    let full_name = qualified_name(parsed.package.as_str(), parsed.name.as_str());
    Taken::Finished(
        Arc::new(
            MessageSchema {
                full_name,
                package: parsed.package,
                name: parsed.name,
                fields,
                type_hash: None,
            },
        ),
    )
}

proof fn unwinds_more(
    stack: Seq<Draft>,
    known: Map<Seq<char>, Arc<MessageSchema>>,
    built: Seq<Arc<MessageSchema>>,
    s: Arc<MessageSchema>,
)
    requires
        unwinds(stack, known, built),
        built.len() < stack.len(),
        finishes(
            stack[stack.len() - 1 - built.len()],
            awaited(built, built.len() as int),
            registered(known, built),
            s,
        ),
    ensures
        unwinds(stack, known, built.push(s)),
        registered(known, built.push(s)) == registered(known, built).insert(s.full_name@, s),
{
    reveal(unwinds);
    let more = built.push(s);
    assert forall|i: int| 0 <= i < more.len() implies finishes(
        stack[stack.len() - 1 - i],
        awaited(more, i),
        registered(known, more.take(i)),
        #[trigger] more[i],
    ) by {
        assert(more.take(i) =~= built.take(i));
        if i < built.len() {
            assert(more[i] == built[i]);
        } else {
            assert(built.take(i) =~= built);
        }
    }
    assert(more.drop_last() =~= built);
}

/// Finishes as many drafts as can be finished.
fn unwind(drafts: Vec<Draft>, known: &mut SchemaRegistry) -> (r: (Loading, LoadStep))
    requires
        drafts@.len() > 0,
        all_wait(drafts@.drop_last()),
        drafts@.last().fields@.len() <= drafts@.last().parsed.fields@.len(),
    ensures
        exists|built: Seq<Arc<MessageSchema>>|
            is_step(drafts@, old(known)@, built, final(known)@, r.0, r.1),
{
    let ghost all = drafts@;
    let ghost before = known@;
    let ghost mut built: Seq<Arc<MessageSchema>> = Seq::empty();
    let mut stack = drafts;
    let mut answer: Option<Arc<MessageSchema>> = None;
    proof {
        reveal(unwinds);
        assert(stack@ =~= all.take(all.len() - built.len()));
    }
    loop
        invariant
            all == drafts@,
            all.len() > 0,
            all_wait(all.drop_last()),
            all.last().fields@.len() <= all.last().parsed.fields@.len(),
            built.len() < all.len(),
            stack@ == all.take(all.len() - built.len()),
            unwinds(all, before, built),
            known@ == registered(before, built),
            answer == awaited(built, built.len() as int),
            before == old(known)@,
        decreases stack@.len(),
    {
        let ghost left = stack@.len();
        let ghost top = all[left - 1];
        proof {
            if left < all.len() {
                assert(all.drop_last()[left - 1] == top);
                assert(waits(top));
            }
        }
        match stack.pop() {
            None => {
                return (Loading { stack, package: String::new() }, LoadStep::Done(None));
            },
            Some(draft) => {
                assert(draft == top);
                match take_draft(draft, answer, known) {
                    Taken::Finished(s) => {
                        known.register(s.clone());
                        proof {
                            unwinds_more(all, before, built, s);
                            built = built.push(s);
                        }
                        assert(stack@ =~= all.take(all.len() - built.len()));
                        if stack.len() == 0 {
                            let r = (
                                Loading { stack, package: String::new() },
                                LoadStep::Done(Some(s)),
                            );
                            assert(is_step(all, before, built, known@, r.0, r.1));
                            return r;
                        }
                        answer = Some(s);
                    },
                    Taken::Waits(d, package, name) => {
                        stack.push(d);
                        proof {
                            assert forall|i: int| 0 <= i < stack@.len() implies waits(
                                #[trigger] stack@[i],
                            ) by {
                                if i < left - 1 {
                                    assert(stack@[i] == all.drop_last()[i]);
                                }
                            }
                        }
                        let r = (
                            Loading { stack, package: package.clone() },
                            LoadStep::Read { package, name },
                        );
                        assert(is_step(all, before, built, known@, r.0, r.1));
                        return r;
                    },
                    Taken::Fails => {
                        let r = (
                            Loading { stack: Vec::new(), package: String::new() },
                            LoadStep::Done(None),
                        );
                        assert(is_step(all, before, built, known@, r.0, r.1));
                        return r;
                    },
                }
            },
        }
    }
}

/// How a loading begins.
pub ghost enum Begin {
    /// It is over at once, with a schema or with none.
    Done(Option<Arc<MessageSchema>>),
    /// The definition of a message must be read.
    Read(Seq<char>, Seq<char>),
}

/// How the loading of the schema of `name` begins: with the schema that is
/// known, or with the definition.
pub open spec fn begin_of(known: Map<Seq<char>, Arc<MessageSchema>>, name: Seq<char>) -> Begin {
    match name_parts(name) {
        None => Begin::Done(None),
        Some((package, n)) => match registry::held(known, schema::qualified(package, n)) {
            Some(s) => Begin::Done(Some(s)),
            None => Begin::Read(package, n),
        },
    }
}

/// Begins to load the schema of a name such as `geometry_msgs/msg/Twist` or
/// `geometry_msgs/Twist`.
pub fn load_schema_from_ament(known: &SchemaRegistry, name: &str) -> (r: (Loading, LoadStep))
    ensures
        r.0.stack().len() == 0,
        match begin_of(known@, name@) {
            Begin::Done(s) => r.1 == LoadStep::Done(s),
            Begin::Read(package, n) => {
                &&& r.1 matches LoadStep::Read { package: p, name: m } && p@ == package && m@ == n
                &&& r.0.package() == package
            },
        },
{
    match split_ros_type_name(name) {
        None => (Loading { stack: Vec::new(), package: String::new() }, LoadStep::Done(None)),
        Some((package, name)) => {
            match known.get(qualified_name(package.as_str(), name.as_str()).as_str()) {
                Some(s) => (
                    Loading { stack: Vec::new(), package: String::new() },
                    LoadStep::Done(Some(s)),
                ),
                None => (
                    Loading { stack: Vec::new(), package: package.clone() },
                    LoadStep::Read { package, name },
                ),
            }
        },
    }
}

/// A definition from which nothing has been taken, with `package` written in
/// where its fields refer to a message without the package.
pub open spec fn begins(parsed: ParsedMessage, package: Seq<char>, draft: Draft) -> bool {
    within_package(parsed, package, draft.parsed) && draft.fields@.len() == 0
}

impl Loading {
    /// `step` and `after` are what comes of this loading with what was found of
    /// the definition that was asked for, and `now` is what is known then.
    pub open spec fn is_supplied(
        &self,
        known: Map<Seq<char>, Arc<MessageSchema>>,
        found: Option<ParsedMessage>,
        now: Map<Seq<char>, Arc<MessageSchema>>,
        after: Loading,
        step: LoadStep,
    ) -> bool {
        match found {
            None => {
                &&& step == LoadStep::Done(None)
                &&& after.stack().len() == 0
                &&& now == known
            },
            Some(parsed) => exists|draft: Draft, built: Seq<Arc<MessageSchema>>|
                {
                    &&& #[trigger] begins(parsed, self.package(), draft)
                    &&& #[trigger] is_step(
                        self.stack().push(draft),
                        known,
                        built,
                        now,
                        after,
                        step,
                    )
                },
        }
    }

    /// Goes on with the definition that was asked for, or with none where it
    /// could not be found or read.
    pub fn supply(self, known: &mut SchemaRegistry, found: Option<ParsedMessage>) -> (r: (
        Loading,
        LoadStep,
    ))
        ensures
            self.is_supplied(old(known)@, found, final(known)@, r.0, r.1),
    {
        proof {
            use_type_invariant(&self);
        }
        match found {
            None => (Loading { stack: Vec::new(), package: String::new() }, LoadStep::Done(None)),
            Some(parsed) => {
                let draft = Draft {
                    parsed: qualify_references(parsed, self.package.as_str()),
                    fields: Vec::new(),
                };
                assert(begins(parsed, self.package(), draft));
                let mut stack = self.stack;
                stack.push(draft);
                assert(stack@.drop_last() =~= self.stack());
                unwind(stack, known)
            },
        }
    }
}

} // verus!
