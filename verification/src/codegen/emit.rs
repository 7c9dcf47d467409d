//! The generated module: its text, and whether it is Rust.

use crate::codegen::config::{GeneratorConfig, MessageGenerator};
use crate::codegen::group;
use crate::codegen::group::{all_messages, group_packages, PackageContents};
use crate::codegen::types::{ResolvedAction, ResolvedMessage, ResolvedService};
use crate::names;
use crate::names::NameMap;
use crate::text;
use crate::text::text_eq;
use vstd::prelude::*;
use vstd::string::*;

verus! {

// ---------------------------------------------------------------------------
// Rust syntax
// ---------------------------------------------------------------------------

/// A parse error of `syn`.
#[verifier::external_type_specification]
#[verifier::external_body]
pub struct ExSynError(syn::Error);

/// Whether `syn` takes a text for a file of Rust items.
pub uninterp spec fn parses_as_file(source: Seq<char>) -> bool;

/// The identifier that `syn` reads where a text is one identifier and nothing
/// else but space and comments.
pub uninterp spec fn identifier_in(source: Seq<char>) -> Option<Seq<char>>;

/// `syn::parse_str` for `syn::File`: it succeeds exactly where the whole text
/// parses, which the text alone decides. (Inside a procedural macro the compiler
/// would read the tokens; this library does not run there.) What the error of a
/// failure says is left unsaid: it is a value of `syn`.
#[verifier::external_body]
fn parse_file(source: &str) -> (r: Result<(), syn::Error>)
    ensures
        r is Ok == parses_as_file(source@),
{
    match syn::parse_str::<syn::File>(source) {
        Ok(_) => Ok(()),
        Err(e) => Err(e),
    }
}

/// `parse_any` of `syn::ext::IdentExt`, on a whole text: the identifier that was
/// read, keywords and raw identifiers among them, as it is written.
#[verifier::external_body]
fn read_identifier(source: &str) -> (r: Option<String>)
    ensures
        match r {
            Some(s) => identifier_in(source@) == Some(s@),
            None => identifier_in(source@) is None,
        },
{
    let read = <syn::Ident as syn::ext::IdentExt>::parse_any;
    match syn::parse::Parser::parse_str(read, source) {
        Ok(ident) => Some(ident.to_string()),
        Err(_) => None,
    }
}

/// A text that is an identifier as it stands.
pub open spec fn is_identifier(name: Seq<char>) -> bool {
    match identifier_in(name) {
        Some(read) => read == name,
        None => false,
    }
}

/// Whether `read`, the identifier that was read in `name`, is all of `name`.
pub fn is_all_of(read: &Option<String>, name: &str) -> (r: bool)
    ensures
        r == (read matches Some(s) && s@ == name@),
{
    match read {
        Some(s) => text_eq(s.as_str(), name),
        None => false,
    }
}

/// Whether a text is an identifier as it stands.
pub fn names_module(name: &str) -> (r: bool)
    ensures
        r == is_identifier(name@),
{
    let read = read_identifier(name);
    is_all_of(&read, name)
}

// ---------------------------------------------------------------------------
// Text
// ---------------------------------------------------------------------------

/// The implementations of a package, as Rust items.
pub struct PackageText {
    pub name: String,
    pub messages: Vec<String>,
    pub services: Vec<String>,
    pub actions: Vec<String>,
}

/// Items below each other.
pub open spec fn stacked(items: Seq<Seq<char>>) -> Seq<char>
    decreases items.len(),
{
    if items.len() == 0 {
        Seq::empty()
    } else {
        stacked(items.drop_last()) + items.last() + "\n"@
    }
}

/// A module with the given inside.
pub open spec fn module(name: Seq<char>, inside: Seq<char>) -> Seq<char> {
    "pub mod "@ + name + " {\n"@ + inside + "}\n"@
}

/// A module for the given items, where there are any.
pub open spec fn submodule(name: Seq<char>, items: Seq<Seq<char>>) -> Seq<char> {
    if items.len() == 0 {
        Seq::empty()
    } else {
        module(name, stacked(items))
    }
}

/// The module of a package: its messages, then a module for its services and
/// one for its actions, where there are any.
pub open spec fn package_module(p: PackageText) -> Seq<char> {
    module(
        p.name@,
        stacked(text::texts(p.messages@)) + submodule("srv"@, text::texts(p.services@)) + submodule(
            "action"@,
            text::texts(p.actions@),
        ),
    )
}

/// The modules of packages, one after the other.
pub open spec fn package_modules(parts: Seq<PackageText>) -> Seq<char>
    decreases parts.len(),
{
    if parts.len() == 0 {
        Seq::empty()
    } else {
        package_modules(parts.drop_last()) + package_module(parts.last())
    }
}

/// The whole generated file.
pub open spec fn generated_text(parts: Seq<PackageText>) -> Seq<char> {
    "#[allow(clippy::approx_constant, clippy::manual_is_multiple_of, clippy::let_and_return)]\n"@
        + module("ros"@, package_modules(parts))
}

fn stack_items(items: &Vec<String>) -> (s: String)
    ensures
        s@ == stacked(text::texts(items@)),
{
    let mut s = String::new();
    let mut i: usize = 0;
    let ghost all = text::texts(items@);
    assert(all.take(0) =~= Seq::empty());
    while i < items.len()
        invariant
            i <= items@.len(),
            all == text::texts(items@),
            s@ == stacked(all.take(i as int)),
        decreases items@.len() - i,
    {
        s.append(items[i].as_str());
        s.append("\n");
        assert(all.take(i + 1).drop_last() =~= all.take(i as int));
        assert(all[i as int] == items@[i as int]@);
        i += 1;
    }
    assert(all.take(i as int) =~= all);
    s
}

fn write_module(name: &str, inside: &str) -> (s: String)
    ensures
        s@ == module(name@, inside@),
{
    let mut s = String::new();
    s.append("pub mod ");
    s.append(name);
    s.append(" {\n");
    s.append(inside);
    s.append("}\n");
    assert(s@ =~= module(name@, inside@));
    s
}

fn write_submodule(name: &str, items: &Vec<String>) -> (s: String)
    ensures
        s@ == submodule(name@, text::texts(items@)),
{
    if items.len() == 0 {
        String::new()
    } else {
        write_module(name, stack_items(items).as_str())
    }
}

fn write_package(p: &PackageText) -> (s: String)
    ensures
        s@ == package_module(*p),
{
    let mut inside = stack_items(&p.messages);
    inside.append(write_submodule("srv", &p.services).as_str());
    inside.append(write_submodule("action", &p.actions).as_str());
    write_module(p.name.as_str(), inside.as_str())
}

/// Writes the generated file.
pub fn write_generated(parts: &Vec<PackageText>) -> (s: String)
    ensures
        s@ == generated_text(parts@),
{
    let mut inside = String::new();
    let mut i: usize = 0;
    assert(parts@.take(0) =~= Seq::empty());
    while i < parts.len()
        invariant
            i <= parts@.len(),
            inside@ == package_modules(parts@.take(i as int)),
        decreases parts@.len() - i,
    {
        inside.append(write_package(&parts[i]).as_str());
        assert(parts@.take(i + 1).drop_last() =~= parts@.take(i as int));
        i += 1;
    }
    assert(parts@.take(i as int) =~= parts@);
    let mut s = "#[allow(clippy::approx_constant, clippy::manual_is_multiple_of, clippy::let_and_return)]\n".to_owned();
    s.append(write_module("ros", inside.as_str()).as_str());
    s
}

// ---------------------------------------------------------------------------
// Generation
// ---------------------------------------------------------------------------

/// Why no code was generated.
pub enum GenerateError<E> {
    /// A message has no implementation.
    Message(E),
    /// A service has no implementation.
    Service(E),
    /// An action has no implementation.
    Action(E),
    /// The generated text is no file of Rust items.
    Parse(syn::Error),
}

impl<E> GenerateError<E> {
    /// What is said of the failure.
    pub open spec fn complaint(&self) -> Seq<char> {
        match self {
            GenerateError::Message(_) => "Failed to generate message implementations"@,
            GenerateError::Service(_) => "Failed to generate service implementations"@,
            GenerateError::Action(_) => "Failed to generate action implementations"@,
            GenerateError::Parse(_) => "Failed to parse generated code"@,
        }
    }

    /// Says what failed.
    pub fn context(&self) -> (s: String)
        ensures
            s@ == self.complaint(),
    {
        match self {
            GenerateError::Message(_) => "Failed to generate message implementations".to_owned(),
            GenerateError::Service(_) => "Failed to generate service implementations".to_owned(),
            GenerateError::Action(_) => "Failed to generate action implementations".to_owned(),
            GenerateError::Parse(_) => "Failed to parse generated code".to_owned(),
        }
    }
}

/// What may be generated for a value.
pub type Gives<T, E> = spec_fn(T, Result<String, E>) -> bool;

/// `out` are texts for the items, in order.
pub open spec fn all_given<T, E>(items: Seq<T>, gives: Gives<T, E>, out: Seq<String>) -> bool {
    &&& out.len() == items.len()
    &&& forall|i: int|
        0 <= i < items.len() ==> gives(#[trigger] items[i], Ok::<String, E>(out[i]))
}

/// There is a text for the item.
pub open spec fn can_give<T, E>(item: T, gives: Gives<T, E>) -> bool {
    exists|s: Result<String, E>| s is Ok && #[trigger] gives(item, s)
}

/// The first item for which there is no text gives the error `e`.
pub open spec fn refused<T, E>(items: Seq<T>, gives: Gives<T, E>, e: E) -> bool {
    exists|i: int|
        {
            &&& 0 <= i < items.len()
            &&& gives(#[trigger] items[i], Err::<String, E>(e))
            &&& forall|j: int| 0 <= j < i ==> can_give(#[trigger] items[j], gives)
        }
}

/// What `f` may give.
pub open spec fn given_by<T, E, F: Fn(&T) -> Result<String, E>>(f: F) -> Gives<T, E> {
    |t: T, r: Result<String, E>| call_ensures(f, (&t,), r)
}

/// What `f` may give, with the settings and the plain types at hand.
pub open spec fn given_with<
    P,
    E,
    F: Fn(&GeneratorConfig, &ResolvedMessage, &P) -> Result<String, E>,
>(f: F, config: GeneratorConfig, plain: P) -> Gives<ResolvedMessage, E> {
    |m: ResolvedMessage, r: Result<String, E>| call_ensures(f, (&config, &m, &plain), r)
}

/// Generates a text for each item, up to the first that has none.
fn give_all<T, E, F: Fn(&T) -> Result<String, E>>(items: &Vec<&T>, f: &F) -> (r: Result<
    Vec<String>,
    E,
>)
    requires
        forall|t: &T| #[trigger] call_requires(*f, (t,)),
    ensures
        match r {
            Ok(v) => all_given(group::values_of(items@), given_by(*f), v@),
            Err(e) => refused(group::values_of(items@), given_by(*f), e),
        },
{
    let ghost all = group::values_of(items@);
    let ghost gives = given_by(*f);
    let mut v: Vec<String> = Vec::new();
    let mut i: usize = 0;
    while i < items.len()
        invariant
            i <= items@.len(),
            v@.len() == i,
            all == group::values_of(items@),
            gives == given_by(*f),
            forall|t: &T| #[trigger] call_requires(*f, (t,)),
            forall|j: int| 0 <= j < i ==> gives(#[trigger] all[j], Ok::<String, E>(v@[j])),
            forall|j: int| 0 <= j < i ==> can_give(#[trigger] all[j], gives),
        decreases items@.len() - i,
    {
        let r = f(items[i]);
        let ghost seen = r;
        assert(all[i as int] == *items@[i as int]);
        assert(gives(all[i as int], seen));
        match r {
            Ok(s) => {
                assert(can_give(all[i as int], gives));
                v.push(s);
            },
            Err(e) => {
                assert(seen == Err::<String, E>(e));
                return Err(e);
            },
        }
        i += 1;
    }
    Ok(v)
}

/// Generates a text for each message, up to the first that has none.
fn give_messages<P, E, F: Fn(&GeneratorConfig, &ResolvedMessage, &P) -> Result<String, E>>(
    config: &GeneratorConfig,
    items: &Vec<&ResolvedMessage>,
    plain: &P,
    f: &F,
) -> (r: Result<Vec<String>, E>)
    requires
        forall|c: &GeneratorConfig, m: &ResolvedMessage, p: &P| #[trigger]
                call_requires(*f, (c, m, p)),
    ensures
        match r {
            Ok(v) => all_given(group::values_of(items@), given_with(*f, *config, *plain), v@),
            Err(e) => refused(group::values_of(items@), given_with(*f, *config, *plain), e),
        },
{
    let ghost all = group::values_of(items@);
    let ghost gives = given_with(*f, *config, *plain);
    let mut v: Vec<String> = Vec::new();
    let mut i: usize = 0;
    while i < items.len()
        invariant
            i <= items@.len(),
            v@.len() == i,
            all == group::values_of(items@),
            gives == given_with(*f, *config, *plain),
            forall|c: &GeneratorConfig, m: &ResolvedMessage, p: &P| #[trigger]
                call_requires(*f, (c, m, p)),
            forall|j: int| 0 <= j < i ==> gives(#[trigger] all[j], Ok::<String, E>(v@[j])),
            forall|j: int| 0 <= j < i ==> can_give(#[trigger] all[j], gives),
        decreases items@.len() - i,
    {
        let r = f(config, items[i], plain);
        let ghost seen = r;
        assert(all[i as int] == *items@[i as int]);
        assert(gives(all[i as int], seen));
        match r {
            Ok(s) => {
                assert(can_give(all[i as int], gives));
                v.push(s);
            },
            Err(e) => {
                assert(seen == Err::<String, E>(e));
                return Err(e);
            },
        }
        i += 1;
    }
    Ok(v)
}

/// How the implementations of messages, services and actions come.
#[verifier::reject_recursive_types(E)]
pub ghost struct Makers<E> {
    pub message: Gives<ResolvedMessage, E>,
    pub service: Gives<ResolvedService, E>,
    pub action: Gives<ResolvedAction, E>,
}

/// `part` holds the implementations of what belongs to the package `name`.
pub open spec fn is_part<E>(
    name: Seq<char>,
    contents: group::Contents,
    makers: Makers<E>,
    part: PackageText,
) -> bool {
    &&& part.name@ == name
    &&& all_given(contents.messages, makers.message, part.messages@)
    &&& all_given(contents.services, makers.service, part.services@)
    &&& all_given(contents.actions, makers.action, part.actions@)
}

/// The implementations of what belongs to a package end with the error `e`:
/// first the messages are implemented, then the services, then the actions.
pub open spec fn part_fails<E>(
    contents: group::Contents,
    makers: Makers<E>,
    e: GenerateError<E>,
) -> bool {
    match e {
        GenerateError::Message(e) => refused(contents.messages, makers.message, e),
        GenerateError::Service(e) => {
            &&& exists|v: Seq<String>| all_given(contents.messages, makers.message, v)
            &&& refused(contents.services, makers.service, e)
        },
        GenerateError::Action(e) => {
            &&& exists|v: Seq<String>| all_given(contents.messages, makers.message, v)
            &&& exists|v: Seq<String>| all_given(contents.services, makers.service, v)
            &&& refused(contents.actions, makers.action, e)
        },
        GenerateError::Parse(_) => false,
    }
}

/// `parts` are the implementations of the first packages, each of which can
/// name a module.
pub open spec fn are_parts<E>(
    names: Seq<Seq<char>>,
    packages: Seq<PackageContents>,
    makers: Makers<E>,
    parts: Seq<PackageText>,
) -> bool {
    &&& parts.len() <= packages.len()
    &&& forall|i: int| 0 <= i < parts.len() ==> is_identifier(#[trigger] names[i])
    &&& forall|i: int|
        0 <= i < parts.len() ==> is_part(names[i], packages[i]@, makers, #[trigger] parts[i])
}

/// A generated file: its text, which is a file of Rust items, and how many
/// definitions it is for.
pub struct Generated {
    pub text: String,
    pub count: u128,
}

/// What is generated, from the text and what came of parsing it.
pub fn finished<E>(text: String, count: u128, parsed: Result<(), syn::Error>) -> (r: Result<
    Generated,
    GenerateError<E>,
>)
    ensures
        match parsed {
            Ok(_) => r == Ok::<Generated, GenerateError<E>>(Generated { text, count }),
            Err(e) => r == Err::<Generated, GenerateError<E>>(GenerateError::Parse(e)),
        },
{
    match parsed {
        Ok(_) => Ok(Generated { text, count }),
        Err(e) => Err(GenerateError::Parse(e)),
    }
}

/// `r` is what is generated for grouped definitions, the packages in ascending
/// order.
pub open spec fn is_generated<E>(
    names: Seq<Seq<char>>,
    packages: Seq<PackageContents>,
    makers: Makers<E>,
    r: Result<Generated, GenerateError<E>>,
) -> bool {
    exists|parts: Seq<PackageText>|
        {
            &&& #[trigger] are_parts(names, packages, makers, parts)
            &&& match r {
                Ok(g) => {
                    &&& parts.len() == packages.len()
                    &&& g.text@ == generated_text(parts)
                    &&& parses_as_file(g.text@)
                },
                Err(GenerateError::Parse(_)) => {
                    &&& parts.len() == packages.len()
                    &&& !parses_as_file(generated_text(parts))
                },
                Err(e) => {
                    &&& parts.len() < packages.len()
                    &&& is_identifier(names[parts.len() as int])
                    &&& part_fails(packages[parts.len() as int]@, makers, e)
                },
            }
        }
}

/// The first packages can be implemented, up to one that cannot name a module.
pub open spec fn comes_to_unnamed<E>(
    names: Seq<Seq<char>>,
    packages: Seq<PackageContents>,
    makers: Makers<E>,
) -> bool {
    exists|parts: Seq<PackageText>|
        {
            &&& #[trigger] are_parts(names, packages, makers, parts)
            &&& parts.len() < packages.len()
            &&& !is_identifier(names[parts.len() as int])
        }
}

/// `names` and `packages` are the packages that there is anything in, in
/// ascending order, and what belongs to them.
pub open spec fn are_packages(
    names: Seq<Seq<char>>,
    packages: Seq<PackageContents>,
    messages: Seq<ResolvedMessage>,
    services: Seq<ResolvedService>,
    actions: Seq<ResolvedAction>,
) -> bool {
    &&& names::ascending(names)
    &&& names.len() == packages.len()
    &&& forall|p: Seq<char>| #[trigger]
        names.contains(p) <==> group::gathered(p, messages, services, actions).messages.len() > 0
    &&& forall|i: int|
        0 <= i < names.len() ==> #[trigger] packages[i]@ == group::gathered(
            names[i],
            messages,
            services,
            actions,
        )
}

/// Every package that there is anything in can name a module.
pub open spec fn packages_name_modules(
    messages: Seq<ResolvedMessage>,
    services: Seq<ResolvedService>,
    actions: Seq<ResolvedAction>,
) -> bool {
    forall|p: Seq<char>|
        (#[trigger] group::gathered(p, messages, services, actions)).messages.len() > 0
            ==> is_identifier(p)
}

/// `plain` is what `f` finds for the messages of all packages.
pub open spec fn is_plain<'a, P, F: Fn(&Vec<&'a ResolvedMessage>) -> P>(
    f: F,
    packages: Seq<PackageContents<'a>>,
    plain: P,
) -> bool {
    exists|all: Vec<&'a ResolvedMessage>|
        group::values_of(all@) == group::flattened(packages) && #[trigger] call_ensures(
            f,
            (&all,),
            plain,
        )
}

/// `r` is what is generated for the definitions: the plain types are found for
/// all messages first, and handed on to the implementation of each.
pub open spec fn is_output<'a, P, E, FP: Fn(&Vec<&'a ResolvedMessage>) -> P>(
    plain_types: FP,
    makers: spec_fn(P) -> Makers<E>,
    messages: Seq<ResolvedMessage>,
    services: Seq<ResolvedService>,
    actions: Seq<ResolvedAction>,
    r: Result<Generated, GenerateError<E>>,
) -> bool {
    &&& r matches Ok(g) ==> g.count == messages.len() + services.len() + actions.len()
    &&& exists|names: Seq<Seq<char>>, packages: Seq<PackageContents<'a>>, plain: P|
        {
            &&& #[trigger] are_packages(names, packages, messages, services, actions)
            &&& #[trigger] is_plain(plain_types, packages, plain)
            &&& is_generated(names, packages, makers(plain), r)
        }
}

/// Generation may come to a package that cannot name a module, once every
/// package before it has been implemented.
pub open spec fn may_meet_unnamed<'a, P, E, FP: Fn(&Vec<&'a ResolvedMessage>) -> P>(
    plain_types: FP,
    makers: spec_fn(P) -> Makers<E>,
    messages: Seq<ResolvedMessage>,
    services: Seq<ResolvedService>,
    actions: Seq<ResolvedAction>,
) -> bool {
    exists|names: Seq<Seq<char>>, packages: Seq<PackageContents<'a>>, plain: P|
        {
            &&& #[trigger] are_packages(names, packages, messages, services, actions)
            &&& #[trigger] is_plain(plain_types, packages, plain)
            &&& comes_to_unnamed(names, packages, makers(plain))
        }
}

/// How implementations come from `fm`, `fs` and `fa`.
pub open spec fn makers_of<
    P,
    E,
    FM: Fn(&GeneratorConfig, &ResolvedMessage, &P) -> Result<String, E>,
    FS: Fn(&ResolvedService) -> Result<String, E>,
    FA: Fn(&ResolvedAction) -> Result<String, E>,
>(config: GeneratorConfig, fm: FM, fs: FS, fa: FA) -> spec_fn(P) -> Makers<E> {
    |plain: P|
        Makers {
            message: given_with(fm, config, plain),
            service: given_by(fs),
            action: given_by(fa),
        }
}

/// Generates the implementations of what belongs to a package.
fn give_package<
    P,
    E,
    FM: Fn(&GeneratorConfig, &ResolvedMessage, &P) -> Result<String, E>,
    FS: Fn(&ResolvedService) -> Result<String, E>,
    FA: Fn(&ResolvedAction) -> Result<String, E>,
>(
    config: &GeneratorConfig,
    name: &str,
    contents: &PackageContents,
    plain: &P,
    fm: &FM,
    fs: &FS,
    fa: &FA,
) -> (r: Result<PackageText, GenerateError<E>>)
    requires
        forall|c: &GeneratorConfig, m: &ResolvedMessage, p: &P| #[trigger]
            call_requires(*fm, (c, m, p)),
        forall|s: &ResolvedService| #[trigger] call_requires(*fs, (s,)),
        forall|a: &ResolvedAction| #[trigger] call_requires(*fa, (a,)),
    ensures
        match r {
            Ok(part) => is_part(
                name@,
                contents@,
                makers_of::<P, E, FM, FS, FA>(*config, *fm, *fs, *fa)(*plain),
                part,
            ),
            Err(e) => part_fails(
                contents@,
                makers_of::<P, E, FM, FS, FA>(*config, *fm, *fs, *fa)(*plain),
                e,
            ),
        },
{
    let ghost makers = makers_of::<P, E, FM, FS, FA>(*config, *fm, *fs, *fa)(*plain);
    let messages = match give_messages(config, &contents.messages, plain, fm) {
        Ok(v) => v,
        Err(e) => {
            return Err(GenerateError::Message(e));
        },
    };
    assert(all_given(contents@.messages, makers.message, messages@));
    let services = match give_all(&contents.services, fs) {
        Ok(v) => v,
        Err(e) => {
            return Err(GenerateError::Service(e));
        },
    };
    assert(all_given(contents@.services, makers.service, services@));
    let actions = match give_all(&contents.actions, fa) {
        Ok(v) => v,
        Err(e) => {
            return Err(GenerateError::Action(e));
        },
    };
    Ok(PackageText { name: name.to_owned(), messages, services, actions })
}

/// Generates the implementations of the first `n` packages, in order.
fn give_packages<
    P,
    E,
    FM: Fn(&GeneratorConfig, &ResolvedMessage, &P) -> Result<String, E>,
    FS: Fn(&ResolvedService) -> Result<String, E>,
    FA: Fn(&ResolvedAction) -> Result<String, E>,
>(
    config: &GeneratorConfig,
    packages: &NameMap<PackageContents>,
    n: usize,
    plain: &P,
    fm: &FM,
    fs: &FS,
    fa: &FA,
) -> (r: Result<Vec<PackageText>, GenerateError<E>>)
    requires
        n <= packages.keys().len(),
        forall|c: &GeneratorConfig, m: &ResolvedMessage, p: &P| #[trigger]
            call_requires(*fm, (c, m, p)),
        forall|s: &ResolvedService| #[trigger] call_requires(*fs, (s,)),
        forall|a: &ResolvedAction| #[trigger] call_requires(*fa, (a,)),
    ensures
        are_given(
            packages.keys(),
            packages.values(),
            makers_of::<P, E, FM, FS, FA>(*config, *fm, *fs, *fa)(*plain),
            n as int,
            r,
        ),
{
    let ghost names = packages.keys();
    let ghost contents = packages.values();
    let ghost makers = makers_of::<P, E, FM, FS, FA>(*config, *fm, *fs, *fa)(*plain);
    let all: usize = packages.len();
    proof {
        packages.layout();
    }
    let mut parts: Vec<PackageText> = Vec::new();
    let mut i: usize = 0;
    while i < n
        invariant
            i <= n <= names.len(),
            names == packages.keys(),
            contents == packages.values(),
            names.len() == contents.len(),
            parts@.len() == i,
            given_parts(names, contents, makers, parts@),
            makers == makers_of::<P, E, FM, FS, FA>(*config, *fm, *fs, *fa)(*plain),
            forall|c: &GeneratorConfig, m: &ResolvedMessage, p: &P| #[trigger]
                call_requires(*fm, (c, m, p)),
            forall|s: &ResolvedService| #[trigger] call_requires(*fs, (s,)),
            forall|a: &ResolvedAction| #[trigger] call_requires(*fa, (a,)),
        decreases n - i,
    {
        let name = packages.key_at(i);
        let inside = packages.value_at(i);
        match give_package(config, name.as_str(), inside, plain, fm, fs, fa) {
            Ok(part) => {
                parts.push(part);
            },
            Err(e) => {
                assert(inside@ == contents[i as int]@);
                assert(part_fails(contents[parts@.len() as int]@, makers, e));
                assert(given_parts(names, contents, makers, parts@));
                let r = Err::<Vec<PackageText>, GenerateError<E>>(e);
                assert(are_given(names, contents, makers, n as int, r));
                return r;
            },
        }
        i += 1;
    }
    Ok(parts)
}

/// `parts` are the implementations of the first packages.
spec fn given_parts<E>(
    names: Seq<Seq<char>>,
    packages: Seq<PackageContents>,
    makers: Makers<E>,
    parts: Seq<PackageText>,
) -> bool {
    &&& parts.len() <= packages.len()
    &&& forall|i: int|
        0 <= i < parts.len() ==> is_part(names[i], packages[i]@, makers, #[trigger] parts[i])
}

/// `r` are the implementations of the first `n` packages, or the error with
/// which one of them ends.
spec fn are_given<E>(
    names: Seq<Seq<char>>,
    packages: Seq<PackageContents>,
    makers: Makers<E>,
    n: int,
    r: Result<Vec<PackageText>, GenerateError<E>>,
) -> bool {
    match r {
        Ok(parts) => parts@.len() == n && given_parts(names, packages, makers, parts@),
        Err(e) => exists|parts: Seq<PackageText>|
            {
                &&& #[trigger] given_parts(names, packages, makers, parts)
                &&& parts.len() < n
                &&& part_fails(packages[parts.len() as int]@, makers, e)
            },
    }
}

proof fn grouped_are_packages(
    packages: NameMap<PackageContents>,
    messages: Seq<ResolvedMessage>,
    services: Seq<ResolvedService>,
    actions: Seq<ResolvedAction>,
)
    requires
        packages.valid(),
        group::is_grouping(packages@, messages, services, actions),
    ensures
        are_packages(packages.keys(), packages.values(), messages, services, actions),
{
    let names = packages.keys();
    let contents = packages.values();
    packages.layout();
    assert forall|p: Seq<char>| #[trigger] names.contains(p) <==> group::gathered(
        p,
        messages,
        services,
        actions,
    ).messages.len() > 0 by {
        assert(names.to_set().contains(p) <==> packages@.contains_key(p));
    }
    assert forall|i: int| 0 <= i < names.len() implies #[trigger] contents[i]@ == group::gathered(
        names[i],
        messages,
        services,
        actions,
    ) by {
        assert(packages@.contains_key(names[i]));
        assert(packages@[names[i]] == contents[i]);
        assert(group::contents_at(packages@, names[i]) == contents[i]@);
    }
}

/// The place of the first package that cannot name a module.
fn first_unnamed(packages: &NameMap<PackageContents>) -> (r: Option<usize>)
    ensures
        match r {
            Some(k) => {
                &&& k < packages.keys().len()
                &&& !is_identifier(packages.keys()[k as int])
                &&& forall|j: int| 0 <= j < k ==> is_identifier(#[trigger] packages.keys()[j])
            },
            None => forall|j: int|
                0 <= j < packages.keys().len() ==> is_identifier(#[trigger] packages.keys()[j]),
        },
{
    let n: usize = packages.len();
    let mut i: usize = 0;
    while i < n
        invariant
            i <= n,
            n == packages.keys().len(),
            forall|j: int| 0 <= j < i ==> is_identifier(#[trigger] packages.keys()[j]),
        decreases n - i,
    {
        if !names_module(packages.key_at(i).as_str()) {
            return Some(i);
        }
        i += 1;
    }
    None
}

impl MessageGenerator {
    /// Generates the types that are written and read as CDR. The messages,
    /// those that services and actions are made of among them, are implemented
    /// by `message_impl`, the services by `service_impl` and the actions by
    /// `action_impl`.
    pub fn generate_cdr_types<
        'a,
        P,
        E,
        FP: Fn(&Vec<&'a ResolvedMessage>) -> P,
        FM: Fn(&GeneratorConfig, &ResolvedMessage, &P) -> Result<String, E>,
        FS: Fn(&ResolvedService) -> Result<String, E>,
        FA: Fn(&ResolvedAction) -> Result<String, E>,
    >(
        &self,
        messages: &'a Vec<ResolvedMessage>,
        services: &'a Vec<ResolvedService>,
        actions: &'a Vec<ResolvedAction>,
        plain_types: &FP,
        message_impl: &FM,
        service_impl: &FS,
        action_impl: &FA,
    ) -> (r: Result<Generated, GenerateError<E>>)
        requires
            !may_meet_unnamed(
                *plain_types,
                makers_of::<P, E, FM, FS, FA>(
                    self.settings(),
                    *message_impl,
                    *service_impl,
                    *action_impl,
                ),
                messages@,
                services@,
                actions@,
            ),
            forall|v: &Vec<&'a ResolvedMessage>| #[trigger] call_requires(*plain_types, (v,)),
            forall|c: &GeneratorConfig, m: &ResolvedMessage, p: &P| #[trigger]
                call_requires(*message_impl, (c, m, p)),
            forall|s: &ResolvedService| #[trigger] call_requires(*service_impl, (s,)),
            forall|a: &ResolvedAction| #[trigger] call_requires(*action_impl, (a,)),
        ensures
            is_output(
                *plain_types,
                makers_of::<P, E, FM, FS, FA>(
                    self.settings(),
                    *message_impl,
                    *service_impl,
                    *action_impl,
                ),
                messages@,
                services@,
                actions@,
                r,
            ),
    {
        let packages = group_packages(messages, services, actions);
        let ghost names = packages.keys();
        let ghost contents = packages.values();
        let n: usize = packages.len();
        proof {
            packages.layout();
            grouped_are_packages(packages, messages@, services@, actions@);
        }
        let all = all_messages(&packages);
        let plain = plain_types(&all);
        assert(is_plain(*plain_types, contents, plain));
        let ghost makers = makers_of::<P, E, FM, FS, FA>(
            self.settings(),
            *message_impl,
            *service_impl,
            *action_impl,
        )(plain);
        assert(!comes_to_unnamed(names, contents, makers));
        match give_packages(
            self.config(),
            &packages,
            n,
            &plain,
            message_impl,
            service_impl,
            action_impl,
        ) {
            Ok(parts) => {
                proof {
                    names_are_met(names, contents, makers, parts@);
                }
                let text = write_generated(&parts);
                let count: u128 = messages.len() as u128 + services.len() as u128
                    + actions.len() as u128;
                let parsed = parse_file(text.as_str());
                let r = finished(text, count, parsed);
                assert(is_generated(names, contents, makers, r));
                r
            },
            Err(e) => {
                let r = Err::<Generated, GenerateError<E>>(e);
                proof {
                    let parts = choose|parts: Seq<PackageText>|
                        {
                            &&& #[trigger] given_parts(names, contents, makers, parts)
                            &&& parts.len() < n
                            &&& part_fails(contents[parts.len() as int]@, makers, e)
                        };
                    names_are_met(names, contents, makers, parts);
                    assert(are_parts(names, contents, makers, parts));
                    assert(is_generated(names, contents, makers, r));
                }
                r
            },
        }
    }

    /// Generates the types, up to a package that cannot name a module: nothing
    /// comes of it where every package before that one could be implemented.
    pub fn generate_if_named<
        'a,
        P,
        E,
        FP: Fn(&Vec<&'a ResolvedMessage>) -> P,
        FM: Fn(&GeneratorConfig, &ResolvedMessage, &P) -> Result<String, E>,
        FS: Fn(&ResolvedService) -> Result<String, E>,
        FA: Fn(&ResolvedAction) -> Result<String, E>,
    >(
        &self,
        messages: &'a Vec<ResolvedMessage>,
        services: &'a Vec<ResolvedService>,
        actions: &'a Vec<ResolvedAction>,
        plain_types: &FP,
        message_impl: &FM,
        service_impl: &FS,
        action_impl: &FA,
    ) -> (r: Option<Result<Generated, GenerateError<E>>>)
        requires
            forall|v: &Vec<&'a ResolvedMessage>| #[trigger] call_requires(*plain_types, (v,)),
            forall|c: &GeneratorConfig, m: &ResolvedMessage, p: &P| #[trigger]
                call_requires(*message_impl, (c, m, p)),
            forall|s: &ResolvedService| #[trigger] call_requires(*service_impl, (s,)),
            forall|a: &ResolvedAction| #[trigger] call_requires(*action_impl, (a,)),
        ensures
            ({
                let makers = makers_of::<P, E, FM, FS, FA>(
                    self.settings(),
                    *message_impl,
                    *service_impl,
                    *action_impl,
                );
                match r {
                    None => may_meet_unnamed(
                        *plain_types,
                        makers,
                        messages@,
                        services@,
                        actions@,
                    ),
                    Some(out) => is_output(
                        *plain_types,
                        makers,
                        messages@,
                        services@,
                        actions@,
                        out,
                    ),
                }
            }),
            packages_name_modules(messages@, services@, actions@) ==> r is Some,
    {
        let packages = group_packages(messages, services, actions);
        let ghost names = packages.keys();
        let ghost contents = packages.values();
        let n: usize = packages.len();
        proof {
            packages.layout();
            grouped_are_packages(packages, messages@, services@, actions@);
        }
        match first_unnamed(&packages) {
            None => {
                proof {
                    assert forall|ns: Seq<Seq<char>>, cs: Seq<PackageContents<'a>>|
                        are_packages(ns, cs, messages@, services@, actions@) implies forall|i: int|
                        0 <= i < ns.len() ==> is_identifier(#[trigger] ns[i]) by {
                        assert forall|i: int| 0 <= i < ns.len() implies is_identifier(
                            #[trigger] ns[i],
                        ) by {
                            assert(ns.contains(ns[i]));
                            assert(names.contains(ns[i]));
                            let j = names.index_of(ns[i]);
                            assert(names[j] == ns[i]);
                        }
                    }
                }
                Some(
                    self.generate_cdr_types(
                        messages,
                        services,
                        actions,
                        plain_types,
                        message_impl,
                        service_impl,
                        action_impl,
                    ),
                )
            },
            Some(k) => {
                let all = all_messages(&packages);
                let plain = plain_types(&all);
                assert(is_plain(*plain_types, contents, plain));
                let ghost makers = makers_of::<P, E, FM, FS, FA>(
                    self.settings(),
                    *message_impl,
                    *service_impl,
                    *action_impl,
                )(plain);
                proof {
                    assert(names.contains(names[k as int]));
                    assert(group::gathered(
                        names[k as int],
                        messages@,
                        services@,
                        actions@,
                    ).messages.len() > 0);
                }
                match give_packages(
                    self.config(),
                    &packages,
                    k,
                    &plain,
                    message_impl,
                    service_impl,
                    action_impl,
                ) {
                    Ok(parts) => {
                        assert(are_parts(names, contents, makers, parts@));
                        assert(comes_to_unnamed(names, contents, makers));
                        None
                    },
                    Err(e) => {
                        let r = Err::<Generated, GenerateError<E>>(e);
                        proof {
                            let parts = choose|parts: Seq<PackageText>|
                                {
                                    &&& #[trigger] given_parts(names, contents, makers, parts)
                                    &&& parts.len() < k
                                    &&& part_fails(contents[parts.len() as int]@, makers, e)
                                };
                            assert(are_parts(names, contents, makers, parts));
                            assert(is_generated(names, contents, makers, r));
                        }
                        Some(r)
                    },
                }
            },
        }
    }
}

proof fn names_are_met<E>(
    names: Seq<Seq<char>>,
    packages: Seq<PackageContents>,
    makers: Makers<E>,
    parts: Seq<PackageText>,
)
    requires
        given_parts(names, packages, makers, parts),
        !comes_to_unnamed(names, packages, makers),
    ensures
        are_parts(names, packages, makers, parts),
        parts.len() < packages.len() ==> is_identifier(names[parts.len() as int]),
    decreases parts.len(),
{
    assert(parts.len() <= packages.len());
    if parts.len() > 0 {
        let before = parts.drop_last();
        assert forall|i: int| 0 <= i < before.len() implies is_part(
            names[i],
            packages[i]@,
            makers,
            #[trigger] before[i],
        ) by {
            assert(before[i] == parts[i]);
        }
        names_are_met(names, packages, makers, before);
        assert forall|i: int| 0 <= i < parts.len() implies is_identifier(#[trigger] names[i]) by {
            if i == before.len() {
                assert(is_identifier(names[before.len() as int]));
            }
        }
        assert(are_parts(names, packages, makers, parts));
    } else {
        assert(are_parts(names, packages, makers, parts));
    }
}

} // verus!
