//! What holds of schemas, their registry and their loading as a whole.

use crate::codegen::types::{ArrayType, Field, ParsedMessage};
use crate::dynamic::loader;
use crate::dynamic::loader::{Draft, LoadStep, Loading};
use crate::dynamic::registry;
use crate::dynamic::schema;
use crate::dynamic::schema::{DynamicError, FieldSchema, FieldType, MessageSchema};
use crate::text;
use crate::text_laws;
use std::sync::Arc;
use vstd::prelude::*;

verus! {

// ---------------------------------------------------------------------------
// The registry
// ---------------------------------------------------------------------------

/// A schema that is registered is found under its full name, and every other
/// name finds what it found before.
pub proof fn registered_is_found(
    known: Map<Seq<char>, Arc<MessageSchema>>,
    schema: Arc<MessageSchema>,
    name: Seq<char>,
)
    ensures
        registry::held(known.insert(schema.full_name@, schema), name) == (if name
            == schema.full_name@ {
            Some(schema)
        } else {
            registry::held(known, name)
        }),
{
}

/// To register a schema twice is to register it once.
pub proof fn registering_is_idempotent(
    known: Map<Seq<char>, Arc<MessageSchema>>,
    schema: Arc<MessageSchema>,
)
    ensures
        known.insert(schema.full_name@, schema).insert(schema.full_name@, schema) == known.insert(
            schema.full_name@,
            schema,
        ),
{
    assert(known.insert(schema.full_name@, schema).insert(schema.full_name@, schema)
        =~= known.insert(schema.full_name@, schema));
}

// ---------------------------------------------------------------------------
// Conversion
// ---------------------------------------------------------------------------

/// Where the resolver has one answer to each reference, a definition has one
/// outcome: a schema or an error, and of schemas only one.
pub proof fn conversion_is_decided(
    msg: ParsedMessage,
    answers: schema::Answers,
    a: Result<Arc<MessageSchema>, schema::DynamicError>,
    b: Result<Arc<MessageSchema>, schema::DynamicError>,
)
    requires
        forall|p: Seq<char>, n: Seq<char>, s: Option<Arc<MessageSchema>>, t: Option<Arc<MessageSchema>>|
            #[trigger] answers(p, n, s) && #[trigger] answers(p, n, t) ==> s == t,
        schema::is_schema_of(msg, answers, a),
        schema::is_schema_of(msg, answers, b),
    ensures
        a is Ok <==> b is Ok,
        a is Ok ==> {
            &&& a->Ok_0.full_name@ == b->Ok_0.full_name@
            &&& a->Ok_0.fields@.len() == b->Ok_0.fields@.len()
            &&& forall|i: int|
                0 <= i < a->Ok_0.fields@.len() ==> {
                    &&& (#[trigger] a->Ok_0.fields@[i]).name@ == b->Ok_0.fields@[i].name@
                    &&& a->Ok_0.fields@[i].field_type == b->Ok_0.fields@[i].field_type
                }
        },
{
    if a is Ok && b is Ok {
        let x = a->Ok_0;
        let y = b->Ok_0;
        assert forall|i: int| 0 <= i < x.fields@.len() implies {
            &&& (#[trigger] x.fields@[i]).name@ == y.fields@[i].name@
            &&& x.fields@[i].field_type == y.fields@[i].field_type
        } by {
            field_type_is_decided(
                msg.fields@[i],
                answers,
                Ok(x.fields@[i].field_type),
                Ok(y.fields@[i].field_type),
            );
        }
    } else if a is Ok {
        let i = choose|i: int|
            0 <= i < msg.fields@.len() && #[trigger] schema::is_field_type(
                msg.fields@[i],
                answers,
                Err::<FieldType, schema::DynamicError>(b->Err_0),
            );
        let x = a->Ok_0;
        field_type_is_decided(msg.fields@[i], answers, Ok(x.fields@[i].field_type), Err(b->Err_0));
    } else if b is Ok {
        let i = choose|i: int|
            0 <= i < msg.fields@.len() && #[trigger] schema::is_field_type(
                msg.fields@[i],
                answers,
                Err::<FieldType, schema::DynamicError>(a->Err_0),
            );
        let y = b->Ok_0;
        field_type_is_decided(msg.fields@[i], answers, Ok(y.fields@[i].field_type), Err(a->Err_0));
    }
}

proof fn field_type_is_decided(
    field: Field,
    answers: schema::Answers,
    a: Result<FieldType, schema::DynamicError>,
    b: Result<FieldType, schema::DynamicError>,
)
    requires
        forall|p: Seq<char>, n: Seq<char>, s: Option<Arc<MessageSchema>>, t: Option<Arc<MessageSchema>>|
            #[trigger] answers(p, n, s) && #[trigger] answers(p, n, t) ==> s == t,
        schema::is_field_type(field, answers, a),
        schema::is_field_type(field, answers, b),
    ensures
        a is Ok <==> b is Ok,
        a is Ok ==> a == b,
{
}

// ---------------------------------------------------------------------------
// Loading
// ---------------------------------------------------------------------------

/// What reading the definition of a package's message gives.
pub type Definitions = spec_fn(Seq<char>, Seq<char>) -> Option<ParsedMessage>;

/// A definition is of the message that it was read for.
pub open spec fn properly_named(defs: Definitions) -> bool {
    forall|p: Seq<char>, n: Seq<char>|
        (#[trigger] defs(p, n) matches Some(m) ==> m.package@ == p && m.name@ == n)
}

/// `parsed` is the definition of the message `n` of `p`, with the package
/// written in where a message is referred to without it.
pub open spec fn defines(
    defs: Definitions,
    p: Seq<char>,
    n: Seq<char>,
    parsed: ParsedMessage,
) -> bool {
    defs(p, n) matches Some(m) && loader::within_package(m, p, parsed)
}

/// The field has the type that is written, where a reference is to a schema of
/// the message that is referred to, and that schema is true to the definitions
/// down to `depth`.
pub open spec fn field_agrees(
    defs: Definitions,
    written: Field,
    field: FieldSchema,
    depth: nat,
) -> bool
    decreases depth, 1nat,
{
    let base = written.field_type.base_type@;
    let array = written.field_type.array;
    &&& field.name@ == written.name@
    &&& match schema::known_type(base) {
        Some(t) => field.field_type == schema::arrayed(t, array),
        None => {
            &&& written.field_type.package matches Some(p)
            &&& loader::referred(p@, base) matches Some((q, n))
            &&& exists|s: Arc<MessageSchema>|
                {
                    &&& field.field_type == #[trigger] schema::arrayed(FieldType::Message(s), array)
                    &&& s.full_name@ == schema::qualified(q, n)
                    &&& agrees(defs, s, depth)
                }
        },
    }
}

/// The schema is true to the definitions, down to references `depth` deep.
pub open spec fn agrees(defs: Definitions, schema: Arc<MessageSchema>, depth: nat) -> bool
    decreases depth, 0nat,
{
    depth == 0 || exists|p: Seq<char>, n: Seq<char>, parsed: ParsedMessage|
        {
            &&& #[trigger] defines(defs, p, n, parsed)
            &&& schema.full_name@ == schema::qualified(p, n)
            &&& schema.package@ == p
            &&& schema.name@ == n
            &&& schema.fields@.len() == parsed.fields@.len()
            &&& forall|j: int|
                0 <= j < parsed.fields@.len() ==> field_agrees(
                    defs,
                    parsed.fields@[j],
                    #[trigger] schema.fields@[j],
                    (depth - 1) as nat,
                )
        }
}

/// The schema is true to the definitions, through all references.
pub open spec fn true_to(defs: Definitions, schema: Arc<MessageSchema>) -> bool {
    forall|depth: nat| #[trigger] agrees(defs, schema, depth)
}

/// The field has the type that is written, and its schema, if it has one, is
/// true to the definitions.
pub open spec fn field_true_to(defs: Definitions, written: Field, field: FieldSchema) -> bool {
    let base = written.field_type.base_type@;
    let array = written.field_type.array;
    &&& field.name@ == written.name@
    &&& match schema::known_type(base) {
        Some(t) => field.field_type == schema::arrayed(t, array),
        None => {
            &&& written.field_type.package matches Some(p)
            &&& loader::referred(p@, base) matches Some((q, n))
            &&& exists|s: Arc<MessageSchema>|
                {
                    &&& field.field_type == #[trigger] schema::arrayed(FieldType::Message(s), array)
                    &&& s.full_name@ == schema::qualified(q, n)
                    &&& true_to(defs, s)
                }
        },
    }
}

/// Every schema that is known is true to the definitions.
pub open spec fn all_true(
    defs: Definitions,
    known: Map<Seq<char>, Arc<MessageSchema>>,
) -> bool {
    &&& registry::keyed_by_name(known)
    &&& forall|k: Seq<char>| known.contains_key(k) ==> true_to(defs, #[trigger] known[k])
}

/// The draft is of the message `n` of `p`, and its fields are true to the
/// definitions.
pub open spec fn draft_true(
    defs: Definitions,
    p: Seq<char>,
    n: Seq<char>,
    draft: Draft,
) -> bool {
    &&& defines(defs, p, n, draft.parsed)
    &&& draft.fields@.len() <= draft.parsed.fields@.len()
    &&& forall|j: int|
        0 <= j < draft.fields@.len() ==> field_true_to(
            defs,
            draft.parsed.fields@[j],
            #[trigger] draft.fields@[j],
        )
}

/// The first field of the draft without a type refers to the message `n` of
/// `p`.
pub open spec fn draft_waits_for(draft: Draft, p: Seq<char>, n: Seq<char>) -> bool {
    &&& loader::waits(draft)
    &&& ({
        let f = draft.parsed.fields@[draft.fields@.len() as int];
        &&& schema::known_type(f.field_type.base_type@) is None
        &&& f.field_type.package matches Some(q) && loader::referred(
            q@,
            f.field_type.base_type@,
        ) == Some((p, n))
    })
}

/// The drafts are true to the definitions, and each waits for the next one:
/// the draft `i` is of the message `of[i]`, and the last waits for the message
/// `of[stack.len()]`.
pub open spec fn stack_true(
    defs: Definitions,
    stack: Seq<Draft>,
    of: Seq<(Seq<char>, Seq<char>)>,
) -> bool {
    &&& of.len() == stack.len() + 1
    &&& forall|i: int|
        0 <= i < stack.len() ==> {
            &&& draft_true(defs, of[i].0, of[i].1, #[trigger] stack[i])
            &&& draft_waits_for(stack[i], of[i + 1].0, of[i + 1].1)
        }
}

proof fn fields_make_true(
    defs: Definitions,
    schema: Arc<MessageSchema>,
    p: Seq<char>,
    n: Seq<char>,
    parsed: ParsedMessage,
)
    requires
        defines(defs, p, n, parsed),
        schema.full_name@ == schema::qualified(p, n),
        schema.package@ == p,
        schema.name@ == n,
        schema.fields@.len() == parsed.fields@.len(),
        forall|j: int|
            0 <= j < parsed.fields@.len() ==> field_true_to(
                defs,
                parsed.fields@[j],
                #[trigger] schema.fields@[j],
            ),
    ensures
        true_to(defs, schema),
{
    assert forall|depth: nat| #[trigger] agrees(defs, schema, depth) by {
        if depth > 0 {
            let below = (depth - 1) as nat;
            assert forall|j: int| 0 <= j < parsed.fields@.len() implies field_agrees(
                defs,
                parsed.fields@[j],
                #[trigger] schema.fields@[j],
                below,
            ) by {
                let written = parsed.fields@[j];
                let field = schema.fields@[j];
                assert(field_true_to(defs, written, field));
                let base = written.field_type.base_type@;
                if schema::known_type(base) is None {
                    let (q, m) = loader::referred(written.field_type.package->0@, base)->0;
                    let s = choose|s: Arc<MessageSchema>|
                        {
                            &&& field.field_type == #[trigger] schema::arrayed(
                                FieldType::Message(s),
                                written.field_type.array,
                            )
                            &&& s.full_name@ == schema::qualified(q, m)
                            &&& true_to(defs, s)
                        };
                    assert(agrees(defs, s, below));
                }
            }
        }
    }
}

proof fn continued_fields_are_true(
    defs: Definitions,
    p: Seq<char>,
    n: Seq<char>,
    draft: Draft,
    answer: Option<Arc<MessageSchema>>,
    known: Map<Seq<char>, Arc<MessageSchema>>,
    fields: Seq<FieldSchema>,
)
    requires
        draft_true(defs, p, n, draft),
        all_true(defs, known),
        loader::continues(draft, answer, known, fields),
        answer matches Some(s) ==> {
            &&& true_to(defs, s)
            &&& exists|q: Seq<char>, m: Seq<char>|
                #[trigger] draft_waits_for(draft, q, m) && s.full_name@ == schema::qualified(q, m)
        },
    ensures
        forall|j: int|
            0 <= j < fields.len() ==> field_true_to(
                defs,
                draft.parsed.fields@[j],
                #[trigger] fields[j],
            ),
{
    reveal(loader::continues);
    let start = draft.fields@.len();
    assert forall|j: int| 0 <= j < fields.len() implies field_true_to(
        defs,
        draft.parsed.fields@[j],
        #[trigger] fields[j],
    ) by {
        let written = draft.parsed.fields@[j];
        let base = written.field_type.base_type@;
        if j < start {
            assert(fields[j] == draft.fields@[j]);
        } else if j == start && answer is Some {
            assert(true_to(defs, answer->0));
        } else {
            let t = Ok::<FieldType, schema::DynamicError>(fields[j].field_type);
            assert(schema::is_field_type(written, loader::answers_from(known), t));
            if schema::known_type(base) is None {
                let p = written.field_type.package->0;
                let found = loader::cached(known, p@, base);
                assert(found is Some);
                let s = found->0;
                let (q, m) = loader::referred(p@, base)->0;
                assert(known[schema::qualified(q, m)] == s);
                assert(true_to(defs, s));
            }
        }
    }
}

proof fn unwinds_less(
    stack: Seq<Draft>,
    known: Map<Seq<char>, Arc<MessageSchema>>,
    built: Seq<Arc<MessageSchema>>,
)
    requires
        loader::unwinds(stack, known, built),
        built.len() > 0,
    ensures
        built.len() <= stack.len(),
        loader::unwinds(stack, known, built.drop_last()),
        loader::finishes(
            stack[stack.len() - built.len()],
            loader::awaited(built, built.len() - 1),
            loader::registered(known, built.drop_last()),
            built.last(),
        ),
{
    reveal(loader::unwinds);
    let before = built.drop_last();
    assert forall|i: int| 0 <= i < before.len() implies loader::finishes(
        stack[stack.len() - 1 - i],
        loader::awaited(before, i),
        loader::registered(known, before.take(i)),
        #[trigger] before[i],
    ) by {
        assert(before[i] == built[i]);
        assert(before.take(i) =~= built.take(i));
    }
    let i = built.len() - 1;
    assert(built.take(i) =~= before);
    assert(loader::finishes(
        stack[stack.len() - 1 - i],
        loader::awaited(built, i),
        loader::registered(known, built.take(i)),
        built[i],
    ));
}

proof fn registering_keeps_true(
    defs: Definitions,
    known: Map<Seq<char>, Arc<MessageSchema>>,
    s: Arc<MessageSchema>,
)
    requires
        all_true(defs, known),
        true_to(defs, s),
    ensures
        all_true(defs, known.insert(s.full_name@, s)),
{
    let now = known.insert(s.full_name@, s);
    assert forall|k: Seq<char>| now.contains_key(k) implies true_to(defs, #[trigger] now[k])
        && now[k].full_name@ == k by {
        if k != s.full_name@ {
            assert(known.contains_key(k) && now[k] == known[k]);
        }
    }
}

proof fn unwound_is_true(
    defs: Definitions,
    stack: Seq<Draft>,
    of: Seq<(Seq<char>, Seq<char>)>,
    known: Map<Seq<char>, Arc<MessageSchema>>,
    built: Seq<Arc<MessageSchema>>,
)
    requires
        properly_named(defs),
        stack.len() > 0,
        stack_true(defs, stack.drop_last(), of),
        draft_true(defs, of.last().0, of.last().1, stack.last()),
        all_true(defs, known),
        loader::unwinds(stack, known, built),
    ensures
        all_true(defs, loader::registered(known, built)),
        built.len() > 0 ==> {
            &&& built.len() <= stack.len()
            &&& true_to(defs, built.last())
            &&& built.last().full_name@ == schema::qualified(
                of[stack.len() - built.len()].0,
                of[stack.len() - built.len()].1,
            )
        },
    decreases built.len(),
{
    if built.len() > 0 {
        let before = built.drop_last();
        unwinds_less(stack, known, built);
        unwound_is_true(defs, stack, of, known, before);
        let i = before.len() as int;
        let at = stack.len() - built.len();
        let draft = stack[at];
        let s = built.last();
        let (p, n) = of[at];
        let mid = loader::registered(known, before);
        if i > 0 {
            assert(stack.drop_last()[at] == draft);
            assert(built[i - 1] == before.last());
            assert(draft_waits_for(draft, of[at + 1].0, of[at + 1].1));
        } else {
            assert(draft == stack.last());
            assert(of[at] == of.last());
        }
        continued_fields_are_true(defs, p, n, draft, loader::awaited(built, i), mid, s.fields@);
        fields_make_true(defs, s, p, n, draft.parsed);
        registering_keeps_true(defs, mid, s);
    }
}

/// Loading is true to the definitions. Where every known schema is true to
/// them, and the drafts are, so is every schema that is known after a step. A
/// schema that a loading ends with is one of the message that was asked for
/// first. And where a step ends with a definition to read, the drafts are true
/// to the definitions again, and wait for it.
pub proof fn loading_is_true_to_the_definitions(
    defs: Definitions,
    of: Seq<(Seq<char>, Seq<char>)>,
    before: Loading,
    known: Map<Seq<char>, Arc<MessageSchema>>,
    draft: Draft,
    built: Seq<Arc<MessageSchema>>,
    now: Map<Seq<char>, Arc<MessageSchema>>,
    after: Loading,
    step: LoadStep,
)
    requires
        properly_named(defs),
        all_true(defs, known),
        stack_true(defs, before.stack(), of),
        before.package() == of.last().0,
        defs(of.last().0, of.last().1) is Some,
        loader::begins(defs(of.last().0, of.last().1)->0, before.package(), draft),
        loader::is_step(before.stack().push(draft), known, built, now, after, step),
    ensures
        all_true(defs, now),
        match step {
            LoadStep::Done(Some(s)) => {
                &&& true_to(defs, s)
                &&& s.full_name@ == schema::qualified(of[0].0, of[0].1)
                &&& registry::held(now, s.full_name@) == Some(s)
            },
            LoadStep::Done(None) => true,
            LoadStep::Read { package, name } => {
                let next = of.take(after.stack().len() as int).push((package@, name@));
                &&& stack_true(defs, after.stack(), next)
                &&& after.package() == package@
            },
        },
{
    let stack = before.stack().push(draft);
    let (p, n) = of.last();
    assert(stack.drop_last() =~= before.stack());
    assert(defines(defs, p, n, draft.parsed));
    assert(draft_true(defs, p, n, draft));
    unwound_is_true(defs, stack, of, known, built);
    match step {
        LoadStep::Done(Some(s)) => {
            assert(built.drop_last().push(built.last()) =~= built);
            assert(now[s.full_name@] == s);
        },
        LoadStep::Done(None) => {},
        LoadStep::Read { package, name } => {
            let left = stack.len() - built.len();
            let top = after.stack().last();
            let next = of.take(left).push((package@, name@));
            let at = left - 1;
            let begun = stack[at];
            if built.len() > 0 {
                assert(stack.drop_last()[at] == begun);
                assert(draft_waits_for(begun, of[at + 1].0, of[at + 1].1));
            } else {
                assert(begun == draft);
            }
            assert(draft_true(defs, of[at].0, of[at].1, begun));
            continued_fields_are_true(
                defs,
                of[at].0,
                of[at].1,
                begun,
                loader::awaited(built, built.len() as int),
                now,
                top.fields@,
            );
            assert forall|i: int| 0 <= i < after.stack().len() implies {
                &&& draft_true(defs, next[i].0, next[i].1, #[trigger] after.stack()[i])
                &&& draft_waits_for(after.stack()[i], next[i + 1].0, next[i + 1].1)
            } by {
                if i < left - 1 {
                    assert(after.stack()[i] == stack[i]);
                    assert(stack.drop_last()[i] == stack[i]);
                    assert(next[i] == of[i]);
                    assert(next[i + 1] == of[i + 1]);
                } else {
                    assert(after.stack()[i] == top);
                    assert(next[i] == of[at]);
                }
            }
        },
    }
}

// ---------------------------------------------------------------------------
// Loading again
// ---------------------------------------------------------------------------

/// A text that can stand between slashes: it is not empty and has none in it.
pub open spec fn plain_name(s: Seq<char>) -> bool {
    s.len() > 0 && !s.contains('/')
}

proof fn pieces_without(s: Seq<char>, c: char)
    requires
        !s.contains(c),
    ensures
        text::pieces(s, c) == seq![s],
{
    text_laws::undivided_is_one_piece(s, c);
}

proof fn pieces_around(a: Seq<char>, c: char, b: Seq<char>)
    ensures
        text::pieces(a.push(c) + b, c) == text::pieces(a, c) + text::pieces(b, c),
        text::pieces(b, c).len() > 0,
{
    text_laws::sides_are_split_on_their_own(a, c, b);
    text_laws::pieces_make_the_text(b, c);
}

proof fn piece_is_plain(s: Seq<char>, c: char, i: int)
    requires
        0 <= i < text::pieces(s, c).len(),
    ensures
        !text::pieces(s, c)[i].contains(c),
        text::pieces(s, c).len() > 0,
{
    text_laws::pieces_make_the_text(s, c);
}

/// The parts of a name are plain.
pub proof fn name_parts_are_plain(name: Seq<char>)
    ensures
        loader::name_parts(name) matches Some((p, n)) ==> plain_name(p) && plain_name(n),
{
    let all = text::pieces(name, '/');
    let keep = |p: Seq<char>| p.len() > 0;
    let parts = all.filter(keep);
    assert forall|i: int| 0 <= i < parts.len() implies plain_name(#[trigger] parts[i]) by {
        all.lemma_filter_pred(keep, i);
        assert(parts.contains(parts[i]));
        all.lemma_filter_contains_rev(keep, parts[i]);
        let j = all.index_of(parts[i]);
        piece_is_plain(name, '/', j);
    }
}

proof fn plain_pieces_stay(parts: Seq<Seq<char>>)
    requires
        forall|i: int| 0 <= i < parts.len() ==> (#[trigger] parts[i]).len() > 0,
    ensures
        parts.filter(|p: Seq<char>| p.len() > 0) == parts,
    decreases parts.len(),
{
    let keep = |p: Seq<char>| p.len() > 0;
    reveal(Seq::filter);
    if parts.len() > 0 {
        assert(parts[parts.len() - 1].len() > 0);
        plain_pieces_stay(parts.drop_last());
        assert(parts.drop_last().push(parts.last()) =~= parts);
    } else {
        assert(parts.filter(keep) =~= parts);
    }
}

proof fn pieces_of_two(p: Seq<char>, n: Seq<char>)
    requires
        !p.contains('/'),
        !n.contains('/'),
    ensures
        text::pieces(p.push('/') + n, '/') == seq![p, n],
{
    pieces_without(p, '/');
    pieces_without(n, '/');
    pieces_around(p, '/', n);
    assert(seq![p] + seq![n] =~= seq![p, n]);
}

proof fn pieces_of_three(p: Seq<char>, m: Seq<char>, n: Seq<char>)
    requires
        !p.contains('/'),
        !m.contains('/'),
        !n.contains('/'),
    ensures
        text::pieces(p.push('/') + (m.push('/') + n), '/') == seq![p, m, n],
{
    pieces_without(p, '/');
    pieces_of_two(m, n);
    pieces_around(p, '/', m.push('/') + n);
    assert(seq![p] + seq![m, n] =~= seq![p, m, n]);
}

proof fn long_spelling(p: Seq<char>, n: Seq<char>)
    ensures
        schema::qualified(p, n) == p.push('/') + (seq!['m', 's', 'g'].push('/') + n),
{
    reveal_strlit("/msg/");
    assert(schema::qualified(p, n) =~= p.push('/') + (seq!['m', 's', 'g'].push('/') + n));
}

proof fn short_spelling(p: Seq<char>, n: Seq<char>)
    ensures
        p + "/"@ + n == p.push('/') + n,
{
    reveal_strlit("/");
    assert(p + "/"@ + n =~= p.push('/') + n);
}

/// Both spellings of a message's name, with and without `msg` between the
/// package and the name, have the package and the name as their parts.
pub proof fn both_spellings_have_their_parts(p: Seq<char>, n: Seq<char>)
    requires
        plain_name(p),
        plain_name(n),
    ensures
        loader::name_parts(schema::qualified(p, n)) == Some((p, n)),
        loader::name_parts(p + "/"@ + n) == Some((p, n)),
{
    let m = seq!['m', 's', 'g'];
    assert(text::nonempty_pieces(schema::qualified(p, n), '/') == seq![p, m, n]) by {
        long_spelling(p, n);
        pieces_of_three(p, m, n);
        plain_pieces_stay(seq![p, m, n]);
    }
    assert(text::nonempty_pieces(p + "/"@ + n, '/') == seq![p, n]) by {
        short_spelling(p, n);
        pieces_of_two(p, n);
        plain_pieces_stay(seq![p, n]);
    }
}

/// The loading is of the message `n` of `p`: the first of its drafts is, or
/// else the definition that must be read, that of the message `m` of `q`.
pub open spec fn is_loading_of(
    stack: Seq<Draft>,
    q: Seq<char>,
    m: Seq<char>,
    p: Seq<char>,
    n: Seq<char>,
) -> bool {
    if stack.len() == 0 {
        q == p && m == n
    } else {
        stack[0].parsed.package@ == p && stack[0].parsed.name@ == n
    }
}

/// Where definitions are of the messages that they were read for, a loading
/// stays one of the message that was asked for, and the schema that it ends
/// with is held under that message's name: to load the message again, in either
/// spelling of its name, is to get the same schema at once.
pub proof fn loaded_is_held(
    defs: Definitions,
    p: Seq<char>,
    n: Seq<char>,
    q: Seq<char>,
    m: Seq<char>,
    before: Loading,
    known: Map<Seq<char>, Arc<MessageSchema>>,
    draft: Draft,
    built: Seq<Arc<MessageSchema>>,
    now: Map<Seq<char>, Arc<MessageSchema>>,
    after: Loading,
    step: LoadStep,
)
    requires
        properly_named(defs),
        is_loading_of(before.stack(), q, m, p, n),
        defs(q, m) is Some,
        loader::begins(defs(q, m)->0, before.package(), draft),
        loader::is_step(before.stack().push(draft), known, built, now, after, step),
    ensures
        match step {
            LoadStep::Done(Some(s)) => {
                &&& s.full_name@ == schema::qualified(p, n)
                &&& registry::held(now, schema::qualified(p, n)) == Some(s)
                &&& plain_name(p) && plain_name(n) ==> {
                    &&& loader::begin_of(now, schema::qualified(p, n)) == loader::Begin::Done(
                        Some(s),
                    )
                    &&& loader::begin_of(now, p + "/"@ + n) == loader::Begin::Done(Some(s))
                }
            },
            LoadStep::Done(None) => true,
            LoadStep::Read { package, name } => is_loading_of(
                after.stack(),
                package@,
                name@,
                p,
                n,
            ),
        },
{
    let stack = before.stack().push(draft);
    assert(stack[0].parsed.package@ == p && stack[0].parsed.name@ == n) by {
        if before.stack().len() == 0 {
            assert(stack[0] == draft);
        } else {
            assert(stack[0] == before.stack()[0]);
        }
    }
    match step {
        LoadStep::Done(Some(s)) => {
            reveal(loader::unwinds);
            let i = built.len() - 1;
            assert(loader::finishes(
                stack[stack.len() - 1 - i],
                loader::awaited(built, i),
                loader::registered(known, built.take(i)),
                built[i],
            ));
            assert(now[s.full_name@] == s);
            if plain_name(p) && plain_name(n) {
                loading_again_gives_the_same(now, p, n, s);
            }
        },
        LoadStep::Done(None) => {},
        LoadStep::Read { package, name } => {
            let left = stack.len() - built.len();
            if left > 1 {
                assert(after.stack()[0] == stack[0]);
            } else {
                assert(after.stack().last() == after.stack()[0]);
            }
        },
    }
}

/// The schemas of the names `k` are those that were known and those that were
/// registered.
pub proof fn registered_names(
    known: Map<Seq<char>, Arc<MessageSchema>>,
    built: Seq<Arc<MessageSchema>>,
    k: Seq<char>,
)
    ensures
        loader::registered(known, built).contains_key(k) <==> known.contains_key(k) || exists|i: int|
            0 <= i < built.len() && (#[trigger] built[i]).full_name@ == k,
    decreases built.len(),
{
    if built.len() > 0 {
        let before = built.drop_last();
        registered_names(known, before, k);
        assert(forall|i: int| 0 <= i < before.len() ==> #[trigger] before[i] == built[i]);
        assert(built[built.len() - 1] == built.last());
        if exists|i: int| 0 <= i < before.len() && (#[trigger] before[i]).full_name@ == k {
            let i = choose|i: int| 0 <= i < before.len() && (#[trigger] before[i]).full_name@ == k;
            assert(built[i].full_name@ == k);
        }
        if exists|i: int| 0 <= i < built.len() && (#[trigger] built[i]).full_name@ == k {
            let i = choose|i: int| 0 <= i < built.len() && (#[trigger] built[i]).full_name@ == k;
            if i < before.len() {
                assert(before[i].full_name@ == k);
            }
        }
    }
}

/// The drafts above the first are of other messages than the message `n` of
/// `p`.
pub open spec fn nested_are_others(stack: Seq<Draft>, p: Seq<char>, n: Seq<char>) -> bool {
    forall|j: int|
        1 <= j < stack.len() ==> schema::qualified(
            (#[trigger] stack[j]).parsed.package@,
            stack[j].parsed.name@,
        ) != schema::qualified(p, n)
}

/// A loading registers the schema that was asked for only when it ends with it.
/// Where a step ends otherwise, with no schema or with a definition to read, the
/// name that was asked for is not registered if it was not before, whatever
/// nested schemas were. Those that were finished are registered all the same.
pub proof fn unfinished_is_not_registered(
    stack: Seq<Draft>,
    known: Map<Seq<char>, Arc<MessageSchema>>,
    built: Seq<Arc<MessageSchema>>,
    now: Map<Seq<char>, Arc<MessageSchema>>,
    after: Loading,
    step: LoadStep,
    p: Seq<char>,
    n: Seq<char>,
)
    requires
        loader::is_step(stack, known, built, now, after, step),
        nested_are_others(stack, p, n),
        !known.contains_key(schema::qualified(p, n)),
    ensures
        !(step is Done && step->Done_0 is Some) ==> !now.contains_key(schema::qualified(p, n)),
        step is Read ==> nested_are_others(after.stack(), p, n),
        forall|i: int|
            0 <= i < built.len() ==> now.contains_key((#[trigger] built[i]).full_name@),
        forall|k: Seq<char>| known.contains_key(k) ==> #[trigger] now.contains_key(k),
{
    reveal(loader::unwinds);
    let asked = schema::qualified(p, n);
    if !(step is Done && step->Done_0 is Some) {
        registered_names(known, built, asked);
        assert forall|i: int| 0 <= i < built.len() implies (#[trigger] built[i]).full_name@
            != asked by {
            let j = stack.len() - 1 - i;
            assert(loader::finishes(
                stack[j],
                loader::awaited(built, i),
                loader::registered(known, built.take(i)),
                built[i],
            ));
            assert(1 <= j < stack.len());
        }
    }
    if step is Read {
        let left = stack.len() - built.len();
        assert forall|j: int| 1 <= j < after.stack().len() implies schema::qualified(
            (#[trigger] after.stack()[j]).parsed.package@,
            after.stack()[j].parsed.name@,
        ) != asked by {
            if j < left - 1 {
                assert(after.stack()[j] == stack[j]);
            } else {
                assert(after.stack()[j] == after.stack().last());
                assert(after.stack()[j].parsed == stack[j].parsed);
            }
        }
    }
    assert forall|i: int| 0 <= i < built.len() implies now.contains_key(
        (#[trigger] built[i]).full_name@,
    ) by {
        registered_names(known, built, built[i].full_name@);
    }
    assert forall|k: Seq<char>| known.contains_key(k) implies #[trigger] now.contains_key(k) by {
        registered_names(known, built, k);
    }
}

/// To load a message again is to get the same schema. While a registry holds a
/// schema under the name of a message, as it does after a loading ended with
/// that schema, both spellings of the name give it at once and no definition is
/// read.
pub proof fn loading_again_gives_the_same(
    later: Map<Seq<char>, Arc<MessageSchema>>,
    p: Seq<char>,
    n: Seq<char>,
    s: Arc<MessageSchema>,
)
    requires
        plain_name(p),
        plain_name(n),
        registry::held(later, schema::qualified(p, n)) == Some(s),
    ensures
        loader::begin_of(later, schema::qualified(p, n)) == loader::Begin::Done(Some(s)),
        loader::begin_of(later, p + "/"@ + n) == loader::Begin::Done(Some(s)),
{
    both_spellings_have_their_parts(p, n);
}

// ---------------------------------------------------------------------------
// The types of fields
// ---------------------------------------------------------------------------

/// What a type is written with, taken off the type: the type of one element.
pub open spec fn element_of(t: FieldType, array: ArrayType) -> Option<FieldType> {
    match (array, t) {
        (ArrayType::Single, _) => Some(t),
        (ArrayType::Fixed(n), FieldType::Array(b, m)) => if n == m {
            Some(*b)
        } else {
            None
        },
        (ArrayType::Bounded(n), FieldType::BoundedSequence(b, m)) => if n == m {
            Some(*b)
        } else {
            None
        },
        (ArrayType::Unbounded, FieldType::Sequence(b)) => Some(*b),
        _ => None,
    }
}

/// The elements of an array have the type that it is made from, whatever that
/// is: an unbounded array is a sequence of it, a bounded one a bounded sequence
/// of it with the same bound, one of fixed length an array of it of that
/// length. Only what is no array is of that type itself.
pub proof fn arrays_keep_their_elements(base: FieldType, array: ArrayType)
    ensures
        element_of(schema::arrayed(base, array), array) == Some(base),
        array is Unbounded ==> schema::arrayed(base, array) == FieldType::Sequence(Box::new(base)),
        array matches ArrayType::Fixed(n) ==> schema::arrayed(base, array) == FieldType::Array(
            Box::new(base),
            n,
        ),
        array matches ArrayType::Bounded(n) ==> schema::arrayed(base, array)
            == FieldType::BoundedSequence(Box::new(base), n),
        schema::arrayed(base, array) == base <==> array is Single,
{
    if !(array is Single) {
        assert(schema::arrayed(base, array) != base) by {
            if schema::arrayed(base, array) == base {
                match base {
                    FieldType::Array(b, _) => {
                        assert(decreases_to!(base => *b));
                    },
                    FieldType::Sequence(b) => {
                        assert(decreases_to!(base => *b));
                    },
                    FieldType::BoundedSequence(b, _) => {
                        assert(decreases_to!(base => *b));
                    },
                    _ => {},
                }
            }
        }
    }
}

/// Different element types, or different kinds of array, make different types.
pub proof fn arrays_differ(a: FieldType, b: FieldType, x: ArrayType, y: ArrayType)
    requires
        !(x is Single),
        !(y is Single),
    ensures
        schema::arrayed(a, x) == schema::arrayed(b, y) ==> a == b && x == y,
{
    arrays_keep_their_elements(a, x);
    arrays_keep_their_elements(b, y);
}

/// A field has the type that it is written with: a type for one element, which
/// is that of the name, with what makes it an array round it.
pub proof fn field_types_are_as_written(
    field: Field,
    answers: schema::Answers,
    r: Result<FieldType, DynamicError>,
)
    requires
        schema::is_field_type(field, answers, r),
    ensures
        match r {
            Ok(t) => {
                let b = element_of(t, field.field_type.array);
                &&& b is Some
                &&& schema::is_base_type(
                    field.field_type.base_type@,
                    field.field_type.package,
                    answers,
                    Ok(b->0),
                )
            },
            Err(e) => schema::is_base_type(
                field.field_type.base_type@,
                field.field_type.package,
                answers,
                Err(e),
            ),
        },
{
    let base = choose|base: Result<FieldType, DynamicError>|
        {
            &&& #[trigger] schema::is_base_type(
                field.field_type.base_type@,
                field.field_type.package,
                answers,
                base,
            )
            &&& match base {
                Ok(t) => r == Ok::<FieldType, DynamicError>(
                    schema::arrayed(t, field.field_type.array),
                ),
                Err(e) => r == Err::<FieldType, DynamicError>(e),
            }
        };
    match base {
        Ok(t) => {
            arrays_keep_their_elements(t, field.field_type.array);
        },
        Err(e) => {},
    }
}

/// A name that is no type by itself refers to a message. With its package it has
/// the type of the schema that the resolver gives, and where the resolver gives
/// none the error names the message in full. Without a package the error names
/// what was written.
pub proof fn references_are_resolved(
    base: Seq<char>,
    package: Option<String>,
    answers: schema::Answers,
    found: Option<Arc<MessageSchema>>,
    r: Result<FieldType, DynamicError>,
)
    requires
        schema::known_type(base) is None,
        package matches Some(p) ==> forall|s: Option<Arc<MessageSchema>>| #[trigger]
            answers(p@, base, s) ==> s == found,
        schema::is_base_type(base, package, answers, r),
    ensures
        match (package, found) {
            (None, _) => r matches Err(DynamicError::InvalidTypeName(t)) && t@ == base,
            (Some(_), Some(s)) => r matches Ok(FieldType::Message(m)) && m == s,
            (Some(p), None) => r matches Err(DynamicError::SchemaNotFound(t)) && t@ == p@
                + "/msg/"@ + base,
        },
{
}

/// The name of a type that needs no more than its name.
pub open spec fn own_name(t: FieldType) -> Option<Seq<char>> {
    match t {
        FieldType::Bool => Some("bool"@),
        FieldType::Int8 => Some("int8"@),
        FieldType::Int16 => Some("int16"@),
        FieldType::Int32 => Some("int32"@),
        FieldType::Int64 => Some("int64"@),
        FieldType::Uint8 => Some("uint8"@),
        FieldType::Uint16 => Some("uint16"@),
        FieldType::Uint32 => Some("uint32"@),
        FieldType::Uint64 => Some("uint64"@),
        FieldType::Float32 => Some("float32"@),
        FieldType::Float64 => Some("float64"@),
        FieldType::String => Some("string"@),
        _ => None,
    }
}

proof fn names_apart()
    ensures
        "bool"@ == seq!['b', 'o', 'o', 'l'],
        "byte"@ == seq!['b', 'y', 't', 'e'],
        "char"@ == seq!['c', 'h', 'a', 'r'],
        "int8"@ == seq!['i', 'n', 't', '8'],
        "int16"@ == seq!['i', 'n', 't', '1', '6'],
        "int32"@ == seq!['i', 'n', 't', '3', '2'],
        "int64"@ == seq!['i', 'n', 't', '6', '4'],
        "uint8"@ == seq!['u', 'i', 'n', 't', '8'],
        "uint16"@ == seq!['u', 'i', 'n', 't', '1', '6'],
        "uint32"@ == seq!['u', 'i', 'n', 't', '3', '2'],
        "uint64"@ == seq!['u', 'i', 'n', 't', '6', '4'],
        "float32"@ == seq!['f', 'l', 'o', 'a', 't', '3', '2'],
        "float64"@ == seq!['f', 'l', 'o', 'a', 't', '6', '4'],
        "string"@ == seq!['s', 't', 'r', 'i', 'n', 'g'],
{
    reveal_strlit("bool");
    reveal_strlit("byte");
    reveal_strlit("char");
    reveal_strlit("int8");
    reveal_strlit("int16");
    reveal_strlit("int32");
    reveal_strlit("int64");
    reveal_strlit("uint8");
    reveal_strlit("uint16");
    reveal_strlit("uint32");
    reveal_strlit("uint64");
    reveal_strlit("float32");
    reveal_strlit("float64");
    reveal_strlit("string");
    assert("bool"@ =~= seq!['b', 'o', 'o', 'l']);
    assert("byte"@ =~= seq!['b', 'y', 't', 'e']);
    assert("char"@ =~= seq!['c', 'h', 'a', 'r']);
    assert("int8"@ =~= seq!['i', 'n', 't', '8']);
    assert("int16"@ =~= seq!['i', 'n', 't', '1', '6']);
    assert("int32"@ =~= seq!['i', 'n', 't', '3', '2']);
    assert("int64"@ =~= seq!['i', 'n', 't', '6', '4']);
    assert("uint8"@ =~= seq!['u', 'i', 'n', 't', '8']);
    assert("uint16"@ =~= seq!['u', 'i', 'n', 't', '1', '6']);
    assert("uint32"@ =~= seq!['u', 'i', 'n', 't', '3', '2']);
    assert("uint64"@ =~= seq!['u', 'i', 'n', 't', '6', '4']);
    assert("float32"@ =~= seq!['f', 'l', 'o', 'a', 't', '3', '2']);
    assert("float64"@ =~= seq!['f', 'l', 'o', 'a', 't', '6', '4']);
    assert("string"@ =~= seq!['s', 't', 'r', 'i', 'n', 'g']);
}

/// A type that needs no more than its name is found under it.
pub proof fn own_names_are_known(t: FieldType)
    requires
        own_name(t) is Some,
    ensures
        schema::primitive(own_name(t)->0) == Some(t),
        schema::known_type(own_name(t)->0) == Some(t),
{
    names_apart();
}

/// A name stands for a type only where it is the type's own name, and besides
/// `byte` for the smallest signed and `char` for the smallest unsigned integer.
pub proof fn known_names_are_own_names(base: Seq<char>)
    ensures
        schema::primitive(base) matches Some(t) ==> {
            ||| own_name(t) == Some(base)
            ||| t is Int8 && base == "byte"@
            ||| t is Uint8 && base == "char"@
        },
        base == "byte"@ ==> schema::primitive(base) == Some(FieldType::Int8),
        base == "char"@ ==> schema::primitive(base) == Some(FieldType::Uint8),
{
    names_apart();
}

/// A string type with a bound is known by its bound, whatever the bound is.
pub proof fn bounded_strings_are_known(n: usize)
    ensures
        schema::known_type("string<="@ + text::decimal(n as nat)) == Some(
            FieldType::BoundedString(n),
        ),
{
    let p = "string<="@;
    let base = p + text::decimal(n as nat);
    reveal_strlit("string<=");
    names_apart();
    text_laws::decimal_reads_back(n as nat);
    text_laws::beginnings(base, p, text::decimal(n as nat));
    assert(base.skip(p.len() as int) =~= text::decimal(n as nat));
    assert(base.len() >= 8);
    assert(schema::primitive(base) is None);
}

/// Only a text that begins as a bounded string and goes on with a number is one,
/// and its bound is that number.
pub proof fn bounds_are_read_as_written(base: Seq<char>, n: usize)
    requires
        schema::known_type(base) == Some(FieldType::BoundedString(n)),
    ensures
        exists|rest: Seq<char>| base == "string<="@ + rest && #[trigger] text::number(rest) == Some(
            n as nat,
        ),
{
    let p = "string<="@;
    known_names_are_own_names(base);
    text_laws::beginnings(base, p, seq![]);
    let rest = base.skip(p.len() as int);
    assert(base == p + rest && text::number(rest) == Some(n as nat));
}

/// A schema lists the fields of its definition, all of them and in their order,
/// each under its name and with the type that is written; it has the names of
/// the definition.
pub proof fn schema_has_the_fields_of_its_definition(
    msg: ParsedMessage,
    answers: schema::Answers,
    made: Arc<MessageSchema>,
    i: int,
)
    requires
        schema::is_schema_of(msg, answers, Ok(made)),
        0 <= i < msg.fields@.len(),
    ensures
        made.fields@.len() == msg.fields@.len(),
        made.fields@[i].name@ == msg.fields@[i].name@,
        element_of(made.fields@[i].field_type, msg.fields@[i].field_type.array) matches Some(b)
            && schema::is_base_type(
            msg.fields@[i].field_type.base_type@,
            msg.fields@[i].field_type.package,
            answers,
            Ok(b),
        ),
        made.package@ == msg.package@,
        made.name@ == msg.name@,
        made.full_name@ == msg.package@ + "/msg/"@ + msg.name@,
        made.type_hash is None,
{
    let f = made.fields@[i];
    field_types_are_as_written(msg.fields@[i], answers, Ok(f.field_type));
}

/// A draft that is finished gives a schema of all the fields of its definition,
/// in their order and under their names. The field that waited is an array, or
/// no array, as it is written, of the schema that it waited for.
pub proof fn finished_drafts_have_all_fields(
    draft: Draft,
    answer: Option<Arc<MessageSchema>>,
    known: Map<Seq<char>, Arc<MessageSchema>>,
    made: Arc<MessageSchema>,
    i: int,
)
    requires
        loader::finishes(draft, answer, known, made),
        draft.fields@.len() <= i < draft.parsed.fields@.len(),
    ensures
        made.fields@.len() == draft.parsed.fields@.len(),
        made.fields@[i].name@ == draft.parsed.fields@[i].name@,
        i == draft.fields@.len() && answer is Some ==> element_of(
            made.fields@[i].field_type,
            draft.parsed.fields@[i].field_type.array,
        ) == Some(FieldType::Message(answer->0)),
        i > draft.fields@.len() || answer is None ==> (element_of(
            made.fields@[i].field_type,
            draft.parsed.fields@[i].field_type.array,
        ) matches Some(b) && schema::is_base_type(
            draft.parsed.fields@[i].field_type.base_type@,
            draft.parsed.fields@[i].field_type.package,
            loader::answers_from(known),
            Ok(b),
        )),
        made.full_name@ == draft.parsed.package@ + "/msg/"@ + draft.parsed.name@,
{
    reveal(loader::continues);
    let f = made.fields@[i];
    let array = draft.parsed.fields@[i].field_type.array;
    if i == draft.fields@.len() && answer is Some {
        arrays_keep_their_elements(FieldType::Message(answer->0), array);
    } else {
        field_types_are_as_written(
            draft.parsed.fields@[i],
            loader::answers_from(known),
            Ok(f.field_type),
        );
    }
}

// ---------------------------------------------------------------------------
// References within a package, and places
// ---------------------------------------------------------------------------

/// Writing a package in gives every reference to a message a package, leaves
/// those that have one as they are, and does nothing to primitives, to wide
/// strings and to strings with a bound. So it does nothing a second time.
pub proof fn every_reference_has_a_package(
    before: Field,
    p: Seq<char>,
    after: Field,
    q: Seq<char>,
    again: Field,
)
    requires
        loader::with_package(before, p, after),
        loader::with_package(after, q, again),
    ensures
        ({
            let base = before.field_type.base_type@;
            let named = schema::primitive(base) is Some || base == "wstring"@
                || before.field_type.string_bound is Some;
            &&& before.field_type.package is Some ==> after.field_type.package
                == before.field_type.package
            &&& before.field_type.package is None && named ==> after.field_type.package is None
            &&& before.field_type.package is None && !named ==> (
            after.field_type.package matches Some(w) && w@ == p)
            &&& after.name == before.name
            &&& after.field_type.base_type == before.field_type.base_type
            &&& after.field_type.array == before.field_type.array
            &&& after.field_type.string_bound == before.field_type.string_bound
            &&& again == after
        }),
{
}

/// A name of one part, or of four or more, has no package and no message name.
pub proof fn other_shapes_have_no_parts(parts: Seq<Seq<char>>)
    requires
        forall|i: int| 0 <= i < parts.len() ==> plain_name(#[trigger] parts[i]),
        parts.len() > 0,
    ensures
        loader::name_parts(text_laws::rejoined(parts, '/')) is Some <==> 2 <= parts.len() <= 3,
        2 <= parts.len() <= 3 ==> loader::name_parts(text_laws::rejoined(parts, '/')) == Some(
            (parts[0], parts.last()),
        ),
{
    rejoined_pieces(parts);
    plain_pieces_stay(parts);
}

proof fn rejoined_pieces(parts: Seq<Seq<char>>)
    requires
        forall|i: int| 0 <= i < parts.len() ==> plain_name(#[trigger] parts[i]),
        parts.len() > 0,
    ensures
        text::pieces(text_laws::rejoined(parts, '/'), '/') == parts,
    decreases parts.len(),
{
    if parts.len() == 1 {
        assert(plain_name(parts[0]));
        pieces_without(parts[0], '/');
        assert(seq![parts[0]] =~= parts);
    } else {
        let before = parts.drop_last();
        assert forall|i: int| 0 <= i < before.len() implies plain_name(#[trigger] before[i]) by {
            assert(before[i] == parts[i]);
        }
        rejoined_pieces(before);
        assert(plain_name(parts[parts.len() - 1]));
        pieces_without(parts.last(), '/');
        pieces_around(text_laws::rejoined(before, '/'), '/', parts.last());
        assert(before + seq![parts.last()] =~= parts);
    }
}

/// Definitions of different messages, or below different prefixes, are looked
/// for at different places. All are below their prefix, in the directory of the
/// package, in a file whose name is that of the message with `.msg` after it.
pub proof fn places_differ(
    prefix: Seq<char>,
    package: Seq<char>,
    name: Seq<char>,
    other_prefix: Seq<char>,
    other_package: Seq<char>,
    other_name: Seq<char>,
)
    ensures
        ({
            let place = loader::definition_place(prefix, package, name);
            let other = loader::definition_place(other_prefix, other_package, other_name);
            &&& place == other ==> prefix == other_prefix && package == other_package && name
                == other_name
            &&& place[0] == prefix
            &&& text_laws::rejoined(place.skip(1), '/') == "share/"@ + package + "/msg/"@ + name
                + ".msg"@
        }),
{
    let place = loader::definition_place(prefix, package, name);
    let other = loader::definition_place(other_prefix, other_package, other_name);
    reveal_strlit("share/");
    reveal_strlit("share");
    reveal_strlit("/msg/");
    reveal_strlit("msg");
    if place == other {
        assert(place[0] == other[0] && place[2] == other[2] && place[4] == other[4]);
        assert((name + ".msg"@).take(name.len() as int) =~= name);
        assert((other_name + ".msg"@).take(other_name.len() as int) =~= other_name);
    }
    let below = place.skip(1);
    let dir = seq!["share"@, package, "msg"@];
    assert(below.drop_last() =~= dir);
    assert(dir.drop_last() =~= seq!["share"@, package]);
    assert(seq!["share"@, package].drop_last() =~= seq!["share"@]);
    assert(text_laws::rejoined(seq!["share"@], '/') == "share"@);
    assert(text_laws::rejoined(seq!["share"@, package], '/') =~= "share/"@ + package);
    assert(text_laws::rejoined(dir, '/') =~= "share/"@ + package + "/msg"@) by {
        reveal_strlit("/msg");
    }
    assert(text_laws::rejoined(below, '/') =~= "share/"@ + package + "/msg/"@ + name + ".msg"@) by {
        reveal_strlit("/msg");
    }
}

/// A field whose name is a type by itself wants nothing. One that refers to a
/// message of a package wants the definition of that message exactly while no
/// schema of it is known. One that refers to a message without a package can
/// never have a type.
pub proof fn references_want_their_definitions(
    field: Field,
    known: Map<Seq<char>, Arc<MessageSchema>>,
)
    ensures
        ({
            let base = field.field_type.base_type@;
            let package = field.field_type.package;
            &&& schema::known_type(base) is Some ==> loader::wanted(field, known) is Nothing
            &&& schema::known_type(base) is None && package is None ==> loader::wanted(
                field,
                known,
            ) is Sense
            &&& schema::known_type(base) is None && package is Some && plain_name(package->0@)
                && plain_name(base) ==> loader::wanted(field, known) == if known.contains_key(
                package->0@ + "/msg/"@ + base,
            ) {
                loader::Want::Nothing
            } else {
                loader::Want::Definition(package->0@, base)
            }
        }),
{
    let base = field.field_type.base_type@;
    if field.field_type.package is Some && plain_name(field.field_type.package->0@) && plain_name(
        base,
    ) {
        both_spellings_have_their_parts(field.field_type.package->0@, base);
    }
}

/// A registry answers a reference to a message with the schema that it holds
/// under the message's full name.
pub proof fn registry_answers_by_full_name(
    known: Map<Seq<char>, Arc<MessageSchema>>,
    p: Seq<char>,
    n: Seq<char>,
)
    requires
        plain_name(p),
        plain_name(n),
    ensures
        loader::cached(known, p, n) == if known.contains_key(p + "/msg/"@ + n) {
            Some(known[p + "/msg/"@ + n])
        } else {
            None
        },
{
    both_spellings_have_their_parts(p, n);
}

/// Loading a message of which no schema is known begins with reading its
/// definition; a name without a package and a message name gives no schema.
pub proof fn unknown_messages_are_read(
    known: Map<Seq<char>, Arc<MessageSchema>>,
    p: Seq<char>,
    n: Seq<char>,
    name: Seq<char>,
)
    requires
        plain_name(p),
        plain_name(n),
        !known.contains_key(p + "/msg/"@ + n),
    ensures
        loader::begin_of(known, p + "/msg/"@ + n) == loader::Begin::Read(p, n),
        loader::begin_of(known, p + "/"@ + n) == loader::Begin::Read(p, n),
        loader::name_parts(name) is None ==> loader::begin_of(known, name) == loader::Begin::Done(
            None,
        ),
{
    both_spellings_have_their_parts(p, n);
}

/// Registering schemas one after the other keeps what was known under other
/// names, and of those with the same name the last one counts.
pub proof fn last_registered_counts(
    known: Map<Seq<char>, Arc<MessageSchema>>,
    built: Seq<Arc<MessageSchema>>,
    i: int,
    name: Seq<char>,
)
    requires
        0 <= i < built.len(),
        forall|k: int|
            i < k < built.len() ==> (#[trigger] built[k]).full_name@ != built[i].full_name@,
    ensures
        loader::registered(known, built).contains_key(built[i].full_name@),
        loader::registered(known, built)[built[i].full_name@] == built[i],
        (forall|k: int| 0 <= k < built.len() ==> (#[trigger] built[k]).full_name@ != name)
            ==> registry::held(loader::registered(known, built), name) == registry::held(
            known,
            name,
        ),
    decreases built.len(),
{
    if forall|k: int| 0 <= k < built.len() ==> (#[trigger] built[k]).full_name@ != name {
        others_stay(known, built, name);
    }
    if i < built.len() - 1 {
        assert(built.drop_last()[i] == built[i]);
        assert(built[built.len() - 1].full_name@ != built[i].full_name@);
        last_registered_counts(known, built.drop_last(), i, name);
    }
}

proof fn others_stay(
    known: Map<Seq<char>, Arc<MessageSchema>>,
    built: Seq<Arc<MessageSchema>>,
    name: Seq<char>,
)
    requires
        forall|k: int| 0 <= k < built.len() ==> (#[trigger] built[k]).full_name@ != name,
    ensures
        registry::held(loader::registered(known, built), name) == registry::held(known, name),
    decreases built.len(),
{
    if built.len() > 0 {
        assert(built[built.len() - 1].full_name@ != name);
        others_stay(known, built.drop_last(), name);
    }
}

// ---------------------------------------------------------------------------
// Finding and supplying definitions
// ---------------------------------------------------------------------------

/// A definition is looked for below every prefix of the list, in the order of
/// the list. Empty prefixes do not count.
pub proof fn every_prefix_is_looked_at(a: Seq<char>, b: Seq<char>, p: Seq<char>, n: Seq<char>)
    ensures
        loader::places_of(a.push(':') + b, p, n) == loader::places_of(a, p, n) + loader::places_of(
            b,
            p,
            n,
        ),
        !a.contains(':') && a.len() > 0 ==> loader::places_of(a, p, n) == seq![
            seq![a, "share"@, p, "msg"@, n + ".msg"@],
        ],
        loader::places_of(Seq::empty(), p, n).len() == 0,
{
    let keep = |s: Seq<char>| s.len() > 0;
    let place = |prefix: Seq<char>| loader::definition_place(prefix, p, n);
    pieces_around(a, ':', b);
    filter_of_both(text::pieces(a, ':'), text::pieces(b, ':'), keep);
    let x = text::nonempty_pieces(a, ':');
    let y = text::nonempty_pieces(b, ':');
    assert((x + y).map_values(place) =~= x.map_values(place) + y.map_values(place));
    if !a.contains(':') && a.len() > 0 {
        pieces_without(a, ':');
        plain_pieces_stay(seq![a]);
        assert(loader::places_of(a, p, n) =~= seq![seq![a, "share"@, p, "msg"@, n + ".msg"@]]);
    }
    let none = text::pieces(Seq::empty(), ':');
    assert(none =~= seq![Seq::empty()]);
    assert(none.filter(keep).len() == 0) by {
        reveal(Seq::filter);
        assert(none.drop_last() =~= Seq::empty());
        assert(none.drop_last().filter(keep) =~= Seq::empty());
    }
}

proof fn filter_of_both<T>(a: Seq<T>, b: Seq<T>, keep: spec_fn(T) -> bool)
    ensures
        (a + b).filter(keep) == a.filter(keep) + b.filter(keep),
    decreases b.len(),
{
    reveal(Seq::filter);
    if b.len() == 0 {
        assert(a + b =~= a);
        assert(a.filter(keep) + b.filter(keep) =~= a.filter(keep));
    } else {
        filter_of_both(a, b.drop_last(), keep);
        assert((a + b).drop_last() =~= a + b.drop_last());
        assert((a + b).filter(keep) =~= a.filter(keep) + b.filter(keep));
    }
}

/// A file is found exactly if there is one at some place, and of several the one
/// at the first place counts.
pub proof fn first_file_counts(present: Seq<bool>, r: Option<usize>, i: int)
    requires
        loader::is_first_present(present, r),
        0 <= i < present.len(),
        present[i],
    ensures
        r is Some,
        r matches Some(k) ==> k <= i && present[k as int],
        (forall|j: int| 0 <= j < i ==> !#[trigger] present[j]) ==> r->0 == i,
{
}

/// Without the definition that it asked for, a loading ends with no schema, and
/// what is known stays as it is.
pub proof fn missing_definitions_end_a_loading(
    loading: Loading,
    known: Map<Seq<char>, Arc<MessageSchema>>,
    now: Map<Seq<char>, Arc<MessageSchema>>,
    after: Loading,
    step: LoadStep,
)
    requires
        loading.is_supplied(known, None, now, after, step),
    ensures
        step matches LoadStep::Done(r) && r is None,
        now == known,
{
}

/// A definition without references is loaded at once: where none is waiting for
/// it, the loading ends with its schema, and that schema is known then.
pub proof fn plain_definitions_are_loaded_at_once(
    loading: Loading,
    known: Map<Seq<char>, Arc<MessageSchema>>,
    parsed: ParsedMessage,
    now: Map<Seq<char>, Arc<MessageSchema>>,
    after: Loading,
    step: LoadStep,
)
    requires
        loading.stack().len() == 0,
        loading.is_supplied(known, Some(parsed), now, after, step),
        forall|i: int|
            0 <= i < parsed.fields@.len() ==> schema::known_type(
                (#[trigger] parsed.fields@[i]).field_type.base_type@,
            ) is Some,
    ensures
        step matches LoadStep::Done(Some(s)) && {
            &&& s.full_name@ == parsed.package@ + "/msg/"@ + parsed.name@
            &&& s.fields@.len() == parsed.fields@.len()
            &&& now == known.insert(s.full_name@, s)
        },
{
    reveal(loader::unwinds);
    reveal(loader::continues);
    let (draft, built) = choose|draft: Draft, built: Seq<Arc<MessageSchema>>|
        {
            &&& #[trigger] loader::begins(parsed, loading.package(), draft)
            &&& #[trigger] loader::is_step(
                loading.stack().push(draft),
                known,
                built,
                now,
                after,
                step,
            )
        };
    let stack = loading.stack().push(draft);
    assert(stack[0] == draft);
    assert forall|i: int|
        #![trigger draft.parsed.fields@[i]]
        0 <= i < draft.parsed.fields@.len() implies loader::wanted(
        draft.parsed.fields@[i],
        now,
    ) is Nothing by {
        assert(loader::with_package(parsed.fields@[i], loading.package(), draft.parsed.fields@[i]));
    }
    assert(built.len() <= 1);
    if let LoadStep::Done(Some(s)) = step {
        assert(built.len() == 1 && built[0] == s);
        assert(loader::finishes(
            draft,
            loader::awaited(built, 0),
            loader::registered(known, built.take(0)),
            built[0],
        ));
        assert(built.drop_last() =~= Seq::empty());
        assert(loader::registered(known, built.drop_last()) == known);
    } else {
        assert(built.len() == 0);
    }
}

/// The shared registry has a name exactly if it gives a schema for it. While it
/// cannot be read it has none.
pub proof fn shared_names_have_schemas(
    known: Option<Map<Seq<char>, Arc<MessageSchema>>>,
    name: Seq<char>,
)
    ensures
        registry::is_shared(known, name) <==> registry::shared_schema(known, name) is Some,
        known is None ==> !registry::is_shared(known, name),
        known matches Some(m) ==> (registry::is_shared(known, name) <==> m.contains_key(name)),
        registry::shared_schema(known, name) matches Some(s) ==> s == known->0[name],
{
}

/// Where the resolver has one answer to each reference, the first field without a
/// type decides the error of a definition; without such a field there is a
/// schema.
pub proof fn first_failing_field_decides(
    msg: ParsedMessage,
    answers: schema::Answers,
    r: Result<Arc<MessageSchema>, DynamicError>,
    i: int,
)
    requires
        forall|p: Seq<char>, n: Seq<char>, s: Option<Arc<MessageSchema>>, t: Option<Arc<MessageSchema>>|
            #[trigger] answers(p, n, s) && #[trigger] answers(p, n, t) ==> s == t,
        schema::is_schema_of(msg, answers, r),
        0 <= i <= msg.fields@.len(),
        forall|j: int| 0 <= j < i ==> #[trigger] schema::convertible(msg.fields@[j], answers),
        i < msg.fields@.len() ==> !schema::convertible(msg.fields@[i], answers),
    ensures
        i == msg.fields@.len() ==> r is Ok,
        i < msg.fields@.len() ==> (r matches Err(e) && schema::is_field_type(
            msg.fields@[i],
            answers,
            Err::<FieldType, DynamicError>(e),
        )),
{
    match r {
        Ok(made) => {
            if i < msg.fields@.len() {
                let t = Ok::<FieldType, DynamicError>(made.fields@[i].field_type);
                assert(schema::is_field_type(msg.fields@[i], answers, t));
                assert(schema::convertible(msg.fields@[i], answers));
            }
        },
        Err(e) => {
            let k = choose|k: int|
                {
                    &&& 0 <= k < msg.fields@.len()
                    &&& #[trigger] schema::is_field_type(
                        msg.fields@[k],
                        answers,
                        Err::<FieldType, DynamicError>(e),
                    )
                    &&& forall|j: int|
                        0 <= j < k ==> #[trigger] schema::convertible(msg.fields@[j], answers)
                };
            if k < i {
                assert(schema::convertible(msg.fields@[k], answers));
                let t = choose|t: Result<FieldType, DynamicError>| t is Ok && #[trigger]
                    schema::is_field_type(msg.fields@[k], answers, t);
                field_type_is_decided(msg.fields@[k], answers, t, Err(e));
            } else if k > i {
                assert(schema::convertible(msg.fields@[i], answers));
            }
        },
    }
}

/// A field has a type exactly if its name is a type by itself, or it names a
/// package and the resolver may give a schema for the message that it refers to.
pub proof fn fields_with_types(field: Field, answers: schema::Answers)
    ensures
        schema::convertible(field, answers) <==> {
            ||| schema::known_type(field.field_type.base_type@) is Some
            ||| field.field_type.package is Some && exists|s: Arc<MessageSchema>| #[trigger]
                answers(field.field_type.package->0@, field.field_type.base_type@, Some(s))
        },
{
    let base = field.field_type.base_type@;
    let array = field.field_type.array;
    let package = field.field_type.package;
    if schema::convertible(field, answers) {
        let t = choose|t: Result<FieldType, DynamicError>| t is Ok && #[trigger]
            schema::is_field_type(field, answers, t);
        field_types_are_as_written(field, answers, t);
        let b = element_of(t->Ok_0, array)->0;
        assert(schema::is_base_type(base, package, answers, Ok(b)));
    }
    if schema::known_type(base) is Some {
        let b = Ok::<FieldType, DynamicError>(schema::known_type(base)->0);
        let t = Ok::<FieldType, DynamicError>(schema::arrayed(b->Ok_0, array));
        assert(schema::is_base_type(base, package, answers, b));
        assert(schema::is_field_type(field, answers, t));
    } else if package is Some && exists|s: Arc<MessageSchema>| #[trigger]
        answers(package->0@, base, Some(s)) {
        let s = choose|s: Arc<MessageSchema>| #[trigger] answers(package->0@, base, Some(s));
        let b = Ok::<FieldType, DynamicError>(FieldType::Message(s));
        let t = Ok::<FieldType, DynamicError>(schema::arrayed(b->Ok_0, array));
        assert(schema::is_reference(Some(s), package->0@, base, b));
        assert(schema::is_base_type(base, package, answers, b));
        assert(schema::is_field_type(field, answers, t));
    }
}

/// Going on with a draft keeps the fields that have their types.
pub proof fn drafts_keep_their_fields(
    draft: Draft,
    answer: Option<Arc<MessageSchema>>,
    known: Map<Seq<char>, Arc<MessageSchema>>,
    fields: Seq<FieldSchema>,
    i: int,
)
    requires
        loader::continues(draft, answer, known, fields),
        0 <= i < fields.len(),
    ensures
        fields.len() <= draft.parsed.fields@.len(),
        draft.fields@.len() <= fields.len(),
        i < draft.fields@.len() ==> fields[i] == draft.fields@[i],
        i >= draft.fields@.len() ==> fields[i].name@ == draft.parsed.fields@[i].name@,
{
    reveal(loader::continues);
}

} // verus!
