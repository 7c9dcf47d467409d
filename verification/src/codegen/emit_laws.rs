//! What holds of every generated file.

use crate::codegen::emit;
use crate::codegen::emit::{GenerateError, Generated, Makers, PackageText};
use crate::codegen::group;
use crate::codegen::group::PackageContents;
use crate::codegen::laws;
use crate::codegen::types::{ResolvedAction, ResolvedMessage, ResolvedService};
use crate::text;
use crate::text_laws;
use vstd::prelude::*;

verus! {

// ---------------------------------------------------------------------------
// The inside of a module
// ---------------------------------------------------------------------------

/// The lengths of texts, and one more for each.
pub open spec fn total_length(items: Seq<Seq<char>>) -> nat
    decreases items.len(),
{
    if items.len() == 0 {
        0
    } else {
        items[0].len() + 1 + total_length(items.drop_first())
    }
}

proof fn stacked_both(a: Seq<Seq<char>>, b: Seq<Seq<char>>)
    ensures
        emit::stacked(a + b) == emit::stacked(a) + emit::stacked(b),
    decreases b.len(),
{
    if b.len() == 0 {
        assert(a + b =~= a);
        assert(emit::stacked(a) + emit::stacked(b) =~= emit::stacked(a));
    } else {
        stacked_both(a, b.drop_last());
        assert((a + b).drop_last() =~= a + b.drop_last());
        assert((a + b).last() == b.last());
        assert(emit::stacked(a + b) =~= emit::stacked(a) + emit::stacked(b));
    }
}

proof fn stacked_one(item: Seq<char>)
    ensures
        emit::stacked(seq![item]) == item.push('\n'),
{
    reveal_strlit("\n");
    assert(seq![item].drop_last() =~= Seq::<Seq<char>>::empty());
    assert(emit::stacked(seq![item].drop_last()) =~= Seq::<char>::empty());
    assert(emit::stacked(seq![item]) =~= item.push('\n'));
}

/// Below each other stand all the items, each with a newline after it: before an
/// item those that come before it, after it those that come after it, and
/// nothing else.
pub proof fn every_item_is_stacked(items: Seq<Seq<char>>, i: int)
    requires
        0 <= i < items.len(),
    ensures
        emit::stacked(items) == emit::stacked(items.take(i)) + items[i].push('\n') + emit::stacked(
            items.skip(i + 1),
        ),
        text::occurs_in(emit::stacked(items), items[i]),
        emit::stacked(Seq::empty()).len() == 0,
{
    let before = items.take(i);
    let after = items.skip(i + 1);
    assert(items =~= before + seq![items[i]] + after);
    stacked_both(before + seq![items[i]], after);
    stacked_both(before, seq![items[i]]);
    stacked_one(items[i]);
    let rest = seq!['\n'] + emit::stacked(after);
    assert(emit::stacked(items) =~= emit::stacked(before) + items[i] + rest);
    text_laws::occurs_in_the_middle(emit::stacked(before), items[i], rest);
}

/// Items below each other are as long as all of them together, and one more for
/// each.
pub proof fn stacked_length(items: Seq<Seq<char>>)
    ensures
        emit::stacked(items).len() == total_length(items),
    decreases items.len(),
{
    if items.len() > 0 {
        stacked_length(items.drop_first());
        assert(items =~= seq![items[0]] + items.drop_first());
        stacked_both(seq![items[0]], items.drop_first());
        stacked_one(items[0]);
    }
}

/// A module has its name in its first line, then what is inside of it and
/// nothing else, then its closing brace.
pub proof fn modules_hold_their_inside(name: Seq<char>, inside: Seq<char>)
    ensures
        ({
            let m = emit::module(name, inside);
            let head = "pub mod "@ + name + " {\n"@;
            &&& text::begins_with(m, head)
            &&& text::finishes_with(m, "}\n"@)
            &&& m.len() == head.len() + inside.len() + "}\n"@.len()
            &&& m.subrange(head.len() as int, head.len() as int + inside.len()) == inside
            &&& text::occurs_in(m, inside)
        }),
{
    let m = emit::module(name, inside);
    let head = "pub mod "@ + name + " {\n"@;
    assert(m =~= head + (inside + "}\n"@));
    text_laws::beginnings(m, head, inside + "}\n"@);
    assert(m =~= (head + inside) + "}\n"@);
    text_laws::endings(m, "}\n"@, head + inside);
    assert(m.subrange(head.len() as int, head.len() as int + inside.len()) =~= inside);
    text_laws::occurs_in_the_middle(head, inside, "}\n"@);
}

// ---------------------------------------------------------------------------
// Packages
// ---------------------------------------------------------------------------

/// What is inside of the module of a package.
pub open spec fn inside_of(p: PackageText) -> Seq<char> {
    let messages = emit::stacked(text::texts(p.messages@));
    let services = if p.services@.len() > 0 {
        emit::module("srv"@, emit::stacked(text::texts(p.services@)))
    } else {
        Seq::empty()
    };
    let actions = if p.actions@.len() > 0 {
        emit::module("action"@, emit::stacked(text::texts(p.actions@)))
    } else {
        Seq::empty()
    };
    messages + services + actions
}

/// The module of a package holds its messages, then a module `srv` with its
/// services and a module `action` with its actions, each where there are any,
/// and nothing else.
pub proof fn packages_hold_their_parts(p: PackageText)
    ensures
        emit::package_module(p) == emit::module(p.name@, inside_of(p)),
{
    assert(text::texts(p.services@).len() == p.services@.len());
    assert(text::texts(p.actions@).len() == p.actions@.len());
}

/// The text of every message of a package stands inside of the package's module.
pub proof fn messages_stand_in_their_package(p: PackageText, k: int)
    requires
        0 <= k < p.messages@.len(),
    ensures
        text::occurs_in(inside_of(p), p.messages@[k]@),
        text::occurs_in(emit::package_module(p), p.messages@[k]@),
{
    let items = text::texts(p.messages@);
    every_item_is_stacked(items, k);
    assert(items[k] == p.messages@[k]@);
    let rest = inside_of(p).skip(emit::stacked(items).len() as int);
    assert(inside_of(p) =~= seq![] + emit::stacked(items) + rest);
    text_laws::occurs_in_the_middle(seq![], emit::stacked(items), rest);
    text_laws::occurrence_is_transitive(inside_of(p), emit::stacked(items), items[k]);
    stands_in_package(p, items[k]);
}

/// The text of every service of a package stands inside of the module `srv` of
/// the package's module.
pub proof fn services_stand_in_their_package(p: PackageText, k: int)
    requires
        0 <= k < p.services@.len(),
    ensures
        text::occurs_in(
            inside_of(p),
            "pub mod srv {\n"@ + emit::stacked(text::texts(p.services@)) + "}\n"@,
        ),
        text::occurs_in(inside_of(p), p.services@[k]@),
        text::occurs_in(emit::package_module(p), p.services@[k]@),
{
    let items = text::texts(p.services@);
    let inner = emit::module("srv"@, emit::stacked(items));
    module_heads();
    stands_in_module("srv"@, items, k);
    assert(items[k] == p.services@[k]@);
    let before = emit::stacked(text::texts(p.messages@));
    let after = if p.actions@.len() > 0 {
        emit::module("action"@, emit::stacked(text::texts(p.actions@)))
    } else {
        Seq::empty()
    };
    text_laws::occurs_in_the_middle(before, inner, after);
    assert(inside_of(p) == before + inner + after);
    text_laws::occurrence_is_transitive(inside_of(p), inner, items[k]);
    stands_in_package(p, items[k]);
}

proof fn module_heads()
    ensures
        "pub mod srv {\n"@ == "pub mod "@ + "srv"@ + " {\n"@,
        "pub mod action {\n"@ == "pub mod "@ + "action"@ + " {\n"@,
{
    reveal_strlit("pub mod srv {\n");
    reveal_strlit("pub mod action {\n");
    reveal_strlit("pub mod ");
    reveal_strlit("srv");
    reveal_strlit("action");
    reveal_strlit(" {\n");
    assert("pub mod srv {\n"@ =~= "pub mod "@ + "srv"@ + " {\n"@);
    assert("pub mod action {\n"@ =~= "pub mod "@ + "action"@ + " {\n"@);
}

proof fn stands_in_module(name: Seq<char>, items: Seq<Seq<char>>, k: int)
    requires
        0 <= k < items.len(),
    ensures
        text::occurs_in(emit::module(name, emit::stacked(items)), items[k]),
{
    every_item_is_stacked(items, k);
    modules_hold_their_inside(name, emit::stacked(items));
    text_laws::occurrence_is_transitive(
        emit::module(name, emit::stacked(items)),
        emit::stacked(items),
        items[k],
    );
}

proof fn stands_in_package(p: PackageText, part: Seq<char>)
    requires
        text::occurs_in(inside_of(p), part),
    ensures
        text::occurs_in(emit::package_module(p), part),
{
    packages_hold_their_parts(p);
    modules_hold_their_inside(p.name@, inside_of(p));
    text_laws::occurrence_is_transitive(emit::package_module(p), inside_of(p), part);
}

/// The text of every action of a package stands inside of the module `action` of
/// the package's module.
pub proof fn actions_stand_in_their_package(p: PackageText, k: int)
    requires
        0 <= k < p.actions@.len(),
    ensures
        text::occurs_in(
            inside_of(p),
            "pub mod action {\n"@ + emit::stacked(text::texts(p.actions@)) + "}\n"@,
        ),
        text::occurs_in(inside_of(p), p.actions@[k]@),
        text::occurs_in(emit::package_module(p), p.actions@[k]@),
{
    let items = text::texts(p.actions@);
    let inner = emit::module("action"@, emit::stacked(items));
    module_heads();
    stands_in_module("action"@, items, k);
    assert(items[k] == p.actions@[k]@);
    let services = if p.services@.len() > 0 {
        emit::module("srv"@, emit::stacked(text::texts(p.services@)))
    } else {
        Seq::empty()
    };
    let before = emit::stacked(text::texts(p.messages@)) + services;
    text_laws::occurs_in_the_middle(before, inner, seq![]);
    assert(inside_of(p) == before + inner);
    assert(before + inner + seq![] =~= before + inner);
    text_laws::occurrence_is_transitive(inside_of(p), inner, items[k]);
    stands_in_package(p, items[k]);
}

proof fn modules_both(a: Seq<PackageText>, b: Seq<PackageText>)
    ensures
        emit::package_modules(a + b) == emit::package_modules(a) + emit::package_modules(b),
    decreases b.len(),
{
    if b.len() == 0 {
        assert(a + b =~= a);
        assert(emit::package_modules(a) + emit::package_modules(b) =~= emit::package_modules(a));
    } else {
        modules_both(a, b.drop_last());
        assert((a + b).drop_last() =~= a + b.drop_last());
        assert((a + b).last() == b.last());
        assert(emit::package_modules(a + b) =~= emit::package_modules(a) + emit::package_modules(
            b,
        ));
    }
}

/// The modules of all packages stand one after the other, in their order, with
/// nothing between them.
pub proof fn every_package_has_its_module(parts: Seq<PackageText>, i: int)
    requires
        0 <= i < parts.len(),
    ensures
        emit::package_modules(parts) == emit::package_modules(parts.take(i)) + emit::package_module(
            parts[i],
        ) + emit::package_modules(parts.skip(i + 1)),
        emit::package_modules(Seq::empty()).len() == 0,
{
    let one = seq![parts[i]];
    assert(parts =~= parts.take(i) + one + parts.skip(i + 1));
    modules_both(parts.take(i) + one, parts.skip(i + 1));
    modules_both(parts.take(i), one);
    assert(one.drop_last() =~= Seq::<PackageText>::empty());
    assert(emit::package_modules(one.drop_last()) =~= Seq::<char>::empty());
    assert(emit::package_modules(one) =~= emit::package_module(parts[i]));
}

/// `part` is written in the file `all`: inside of the module `ros`, and there
/// inside of the module `package`.
pub open spec fn written_in(all: Seq<char>, package: Seq<char>, part: Seq<char>) -> bool {
    exists|ros: Seq<char>, inside: Seq<char>|
        {
            &&& text::finishes_with(all, #[trigger] emit::module("ros"@, ros))
            &&& text::occurs_in(ros, #[trigger] emit::module(package, inside))
            &&& text::occurs_in(inside, part)
        }
}

/// A generated file is an attribute and a module `ros` with the modules of all
/// packages in it. It holds the text of every implementation, inside of the
/// module of its package.
pub proof fn generated_text_holds_everything(parts: Seq<PackageText>, i: int)
    requires
        0 <= i < parts.len(),
    ensures
        text::finishes_with(
            emit::generated_text(parts),
            emit::module("ros"@, emit::package_modules(parts)),
        ),
        text::begins_with(emit::generated_text(parts), "#[allow("@),
        text::occurs_in(emit::package_modules(parts), emit::module(parts[i].name@, inside_of(parts[i]))),
        forall|k: int|
            0 <= k < parts[i].messages@.len() ==> written_in(
                emit::generated_text(parts),
                parts[i].name@,
                (#[trigger] parts[i].messages@[k])@,
            ),
        forall|k: int|
            0 <= k < parts[i].services@.len() ==> written_in(
                emit::generated_text(parts),
                parts[i].name@,
                (#[trigger] parts[i].services@[k])@,
            ),
        forall|k: int|
            0 <= k < parts[i].actions@.len() ==> written_in(
                emit::generated_text(parts),
                parts[i].name@,
                (#[trigger] parts[i].actions@[k])@,
            ),
{
    let all = emit::generated_text(parts);
    let ros = emit::package_modules(parts);
    let p = parts[i];
    let attribute =
        "#[allow(clippy::approx_constant, clippy::manual_is_multiple_of, clippy::let_and_return)]\n"@;
    text_laws::endings(all, emit::module("ros"@, ros), attribute);
    attribute_begins(emit::module("ros"@, ros));
    every_package_has_its_module(parts, i);
    text_laws::occurs_in_the_middle(
        emit::package_modules(parts.take(i)),
        emit::package_module(p),
        emit::package_modules(parts.skip(i + 1)),
    );
    packages_hold_their_parts(p);
    assert forall|k: int| 0 <= k < p.messages@.len() implies written_in(
        all,
        p.name@,
        (#[trigger] p.messages@[k])@,
    ) by {
        messages_stand_in_their_package(p, k);
    }
    assert forall|k: int| 0 <= k < p.services@.len() implies written_in(
        all,
        p.name@,
        (#[trigger] p.services@[k])@,
    ) by {
        services_stand_in_their_package(p, k);
    }
    assert forall|k: int| 0 <= k < p.actions@.len() implies written_in(
        all,
        p.name@,
        (#[trigger] p.actions@[k])@,
    ) by {
        actions_stand_in_their_package(p, k);
    }
}

proof fn attribute_begins(rest: Seq<char>)
    ensures
        text::begins_with(
            "#[allow(clippy::approx_constant, clippy::manual_is_multiple_of, clippy::let_and_return)]\n"@
                + rest,
            "#[allow("@,
        ),
{
    let attribute =
        "#[allow(clippy::approx_constant, clippy::manual_is_multiple_of, clippy::let_and_return)]\n"@;
    reveal_strlit(
        "#[allow(clippy::approx_constant, clippy::manual_is_multiple_of, clippy::let_and_return)]\n",
    );
    reveal_strlit("#[allow(");
    assert((attribute + rest).subrange(0, 8) =~= "#[allow("@);
}

// ---------------------------------------------------------------------------
// Generated files and definitions
// ---------------------------------------------------------------------------

/// The code for `item` of the package `p` is in the file `all`: a text that was
/// given for the item is written there inside of the package's module.
pub open spec fn code_is_in<T, E>(
    all: Seq<char>,
    p: Seq<char>,
    item: T,
    gives: emit::Gives<T, E>,
) -> bool {
    exists|s: String| #[trigger] gives(item, Ok::<String, E>(s)) && written_in(all, p, s@)
}

/// A generated file has code for all that belongs to a package, in the package's
/// module, and is a file of Rust items.
pub proof fn packages_are_generated<E>(
    names: Seq<Seq<char>>,
    packages: Seq<PackageContents>,
    makers: Makers<E>,
    g: Generated,
    i: int,
)
    requires
        emit::is_generated(names, packages, makers, Ok(g)),
        0 <= i < packages.len(),
    ensures
        emit::parses_as_file(g.text@),
        emit::is_identifier(names[i]),
        forall|k: int|
            0 <= k < packages[i]@.messages.len() ==> code_is_in(
                g.text@,
                names[i],
                #[trigger] packages[i]@.messages[k],
                makers.message,
            ),
        forall|k: int|
            0 <= k < packages[i]@.services.len() ==> code_is_in(
                g.text@,
                names[i],
                #[trigger] packages[i]@.services[k],
                makers.service,
            ),
        forall|k: int|
            0 <= k < packages[i]@.actions.len() ==> code_is_in(
                g.text@,
                names[i],
                #[trigger] packages[i]@.actions[k],
                makers.action,
            ),
{
    let parts = choose|parts: Seq<PackageText>|
        {
            &&& #[trigger] emit::are_parts(names, packages, makers, parts)
            &&& parts.len() == packages.len()
            &&& g.text@ == emit::generated_text(parts)
            &&& emit::parses_as_file(g.text@)
        };
    let part = parts[i];
    assert(emit::is_part(names[i], packages[i]@, makers, part));
    assert(emit::is_identifier(names[i]));
    generated_text_holds_everything(parts, i);
    assert forall|k: int| 0 <= k < packages[i]@.messages.len() implies code_is_in(
        g.text@,
        names[i],
        #[trigger] packages[i]@.messages[k],
        makers.message,
    ) by {
        let s = part.messages@[k];
        assert((makers.message)(packages[i]@.messages[k], Ok::<String, E>(s)));
        assert(written_in(g.text@, names[i], s@));
    }
    assert forall|k: int| 0 <= k < packages[i]@.services.len() implies code_is_in(
        g.text@,
        names[i],
        #[trigger] packages[i]@.services[k],
        makers.service,
    ) by {
        let s = part.services@[k];
        assert((makers.service)(packages[i]@.services[k], Ok::<String, E>(s)));
        assert(written_in(g.text@, names[i], s@));
    }
    assert forall|k: int| 0 <= k < packages[i]@.actions.len() implies code_is_in(
        g.text@,
        names[i],
        #[trigger] packages[i]@.actions[k],
        makers.action,
    ) by {
        let s = part.actions@[k];
        assert((makers.action)(packages[i]@.actions[k], Ok::<String, E>(s)));
        assert(written_in(g.text@, names[i], s@));
    }
}

/// A generated file has code for every message, in the module of the message's
/// package.
pub proof fn every_message_is_generated<E>(
    names: Seq<Seq<char>>,
    packages: Seq<PackageContents>,
    messages: Seq<ResolvedMessage>,
    services: Seq<ResolvedService>,
    actions: Seq<ResolvedAction>,
    makers: Makers<E>,
    g: Generated,
    m: ResolvedMessage,
)
    requires
        emit::are_packages(names, packages, messages, services, actions),
        emit::is_generated(names, packages, makers, Ok(g)),
        messages.contains(m),
    ensures
        code_is_in(g.text@, m.parsed.package@, m, makers.message),
{
    let p = m.parsed.package@;
    let own = group::messages_in(p, messages);
    laws::messages_belong_to_their_package(p, messages, m);
    let all = group::gathered(p, messages, services, actions).messages;
    let k = own.index_of(m);
    assert(all[k] == m);
    in_its_package(names, packages, messages, services, actions, makers, g, p, k);
}

proof fn in_its_package<E>(
    names: Seq<Seq<char>>,
    packages: Seq<PackageContents>,
    messages: Seq<ResolvedMessage>,
    services: Seq<ResolvedService>,
    actions: Seq<ResolvedAction>,
    makers: Makers<E>,
    g: Generated,
    p: Seq<char>,
    k: int,
)
    requires
        emit::are_packages(names, packages, messages, services, actions),
        emit::is_generated(names, packages, makers, Ok(g)),
        0 <= k < group::gathered(p, messages, services, actions).messages.len(),
    ensures
        code_is_in(
            g.text@,
            p,
            group::gathered(p, messages, services, actions).messages[k],
            makers.message,
        ),
{
    assert(names.contains(p));
    let i = names.index_of(p);
    assert(packages[i]@ == group::gathered(names[i], messages, services, actions));
    packages_are_generated(names, packages, makers, g, i);
    assert(code_is_in(g.text@, names[i], packages[i]@.messages[k], makers.message));
}

/// A generated file has code for every service, and for the request and the
/// response that it is made of, in the module of the service's package.
pub proof fn every_service_is_generated<E>(
    names: Seq<Seq<char>>,
    packages: Seq<PackageContents>,
    messages: Seq<ResolvedMessage>,
    services: Seq<ResolvedService>,
    actions: Seq<ResolvedAction>,
    makers: Makers<E>,
    g: Generated,
    s: ResolvedService,
)
    requires
        emit::are_packages(names, packages, messages, services, actions),
        emit::is_generated(names, packages, makers, Ok(g)),
        services.contains(s),
    ensures
        code_is_in(g.text@, s.parsed.package@, s, makers.service),
        code_is_in(g.text@, s.parsed.package@, s.request, makers.message),
        code_is_in(g.text@, s.parsed.package@, s.response, makers.message),
{
    let p = s.parsed.package@;
    let own = group::services_in(p, services);
    laws::grouped_by_package(p, messages, services, actions);
    let keep = |s: ResolvedService| s.parsed.package@ == p;
    services.lemma_filter_contains(keep, services.index_of(s));
    let j = own.index_of(s);
    assert(own[j] == s);
    laws::services_are_made_of_two(own, j);
    let all = group::gathered(p, messages, services, actions).messages;
    let at = group::messages_in(p, messages).len() + 2 * j;
    assert(all[at] == s.request && all[at + 1] == s.response);
    in_its_package(names, packages, messages, services, actions, makers, g, p, at);
    in_its_package(names, packages, messages, services, actions, makers, g, p, at + 1);
    assert(names.contains(p));
    let i = names.index_of(p);
    assert(packages[i]@ == group::gathered(names[i], messages, services, actions));
    packages_are_generated(names, packages, makers, g, i);
    assert(code_is_in(g.text@, names[i], packages[i]@.services[j], makers.service));
}

/// A generated file has code for every action, and for its goal and, where there
/// are any, its result and its feedback, in the module of the action's package.
pub proof fn every_action_is_generated<E>(
    names: Seq<Seq<char>>,
    packages: Seq<PackageContents>,
    messages: Seq<ResolvedMessage>,
    services: Seq<ResolvedService>,
    actions: Seq<ResolvedAction>,
    makers: Makers<E>,
    g: Generated,
    a: ResolvedAction,
)
    requires
        emit::are_packages(names, packages, messages, services, actions),
        emit::is_generated(names, packages, makers, Ok(g)),
        actions.contains(a),
    ensures
        code_is_in(g.text@, a.parsed.package@, a, makers.action),
        code_is_in(g.text@, a.parsed.package@, a.goal, makers.message),
        a.result matches Some(m) ==> code_is_in(g.text@, a.parsed.package@, m, makers.message),
        a.feedback matches Some(m) ==> code_is_in(g.text@, a.parsed.package@, m, makers.message),
{
    let p = a.parsed.package@;
    let own = group::actions_in(p, actions);
    laws::grouped_by_package(p, messages, services, actions);
    let keep = |a: ResolvedAction| a.parsed.package@ == p;
    actions.lemma_filter_contains(keep, actions.index_of(a));
    let j = own.index_of(a);
    assert(own[j] == a);
    let all = group::gathered(p, messages, services, actions).messages;
    let first = group::messages_in(p, messages) + group::service_messages(
        group::services_in(p, services),
    );
    let made = group::action_messages(own);
    laws::actions_are_made_of_their_parts(own, j);
    let before = group::action_messages(own.take(j));
    let at = (first.len() + before.len()) as int;
    let start = before.len() as int;
    let n: int = if a.result is Some { 1 } else { 0 };
    assert(made[start] == a.goal);
    assert(all[at] == a.goal);
    in_its_package(names, packages, messages, services, actions, makers, g, p, at);
    if a.result is Some {
        assert(made[start + 1] == a.result->0);
        assert(all[at + 1] == a.result->0);
        in_its_package(names, packages, messages, services, actions, makers, g, p, at + 1);
    }
    if a.feedback is Some {
        assert(made[start + 1 + n] == a.feedback->0);
        assert(all[at + 1 + n] == a.feedback->0);
        in_its_package(names, packages, messages, services, actions, makers, g, p, at + 1 + n);
    }
    assert(names.contains(p));
    let i = names.index_of(p);
    assert(packages[i]@ == group::gathered(names[i], messages, services, actions));
    packages_are_generated(names, packages, makers, g, i);
    assert(code_is_in(g.text@, names[i], packages[i]@.actions[j], makers.action));
}

/// Where nothing is generated, something is the reason: a message, a service or
/// an action of a package for which there is no text, or a text that is no file
/// of Rust items. In the packages before the one that failed all went well.
pub proof fn failures_have_a_reason<E>(
    names: Seq<Seq<char>>,
    packages: Seq<PackageContents>,
    makers: Makers<E>,
    e: GenerateError<E>,
)
    requires
        emit::is_generated(names, packages, makers, Err(e)),
    ensures
        match e {
            GenerateError::Message(e) => exists|i: int, k: int|
                0 <= i < packages.len() && 0 <= k < packages[i]@.messages.len()
                    && #[trigger] (makers.message)(packages[i]@.messages[k], Err::<String, E>(e)),
            GenerateError::Service(e) => exists|i: int, k: int|
                0 <= i < packages.len() && 0 <= k < packages[i]@.services.len()
                    && #[trigger] (makers.service)(packages[i]@.services[k], Err::<String, E>(e)),
            GenerateError::Action(e) => exists|i: int, k: int|
                0 <= i < packages.len() && 0 <= k < packages[i]@.actions.len()
                    && #[trigger] (makers.action)(packages[i]@.actions[k], Err::<String, E>(e)),
            GenerateError::Parse(_) => exists|parts: Seq<PackageText>|
                parts.len() == packages.len() && !emit::parses_as_file(
                    #[trigger] emit::generated_text(parts),
                ),
        },
{
    let parts = choose|parts: Seq<PackageText>|
        {
            &&& #[trigger] emit::are_parts(names, packages, makers, parts)
            &&& match e {
                GenerateError::Parse(_) => {
                    &&& parts.len() == packages.len()
                    &&& !emit::parses_as_file(emit::generated_text(parts))
                },
                e => {
                    &&& parts.len() < packages.len()
                    &&& emit::is_identifier(names[parts.len() as int])
                    &&& emit::part_fails(packages[parts.len() as int]@, makers, e)
                },
            }
        };
    let i = parts.len() as int;
    match e {
        GenerateError::Message(e) => {
            assert(emit::refused(packages[i]@.messages, makers.message, e));
            let k = choose|k: int|
                {
                    &&& 0 <= k < packages[i]@.messages.len()
                    &&& (makers.message)(#[trigger] packages[i]@.messages[k], Err::<String, E>(e))
                };
            assert((makers.message)(packages[i]@.messages[k], Err::<String, E>(e)));
        },
        GenerateError::Service(e) => {
            assert(emit::refused(packages[i]@.services, makers.service, e));
            let k = choose|k: int|
                {
                    &&& 0 <= k < packages[i]@.services.len()
                    &&& (makers.service)(#[trigger] packages[i]@.services[k], Err::<String, E>(e))
                };
            assert((makers.service)(packages[i]@.services[k], Err::<String, E>(e)));
        },
        GenerateError::Action(e) => {
            assert(emit::refused(packages[i]@.actions, makers.action, e));
            let k = choose|k: int|
                {
                    &&& 0 <= k < packages[i]@.actions.len()
                    &&& (makers.action)(#[trigger] packages[i]@.actions[k], Err::<String, E>(e))
                };
            assert((makers.action)(packages[i]@.actions[k], Err::<String, E>(e)));
        },
        GenerateError::Parse(_) => {
            assert(parts.len() == packages.len() && !emit::parses_as_file(
                emit::generated_text(parts),
            ));
        },
    }
}

/// What is generated counts every message, service and action once, and has code
/// for every message in the module of its package.
pub proof fn whole_output_holds_every_message<'a, P, E, FP: Fn(&Vec<&'a ResolvedMessage>) -> P>(
    plain_types: FP,
    makers: spec_fn(P) -> Makers<E>,
    messages: Seq<ResolvedMessage>,
    services: Seq<ResolvedService>,
    actions: Seq<ResolvedAction>,
    g: Generated,
)
    requires
        emit::is_output(plain_types, makers, messages, services, actions, Ok(g)),
    ensures
        g.count == messages.len() + services.len() + actions.len(),
        emit::parses_as_file(g.text@),
        exists|plain: P| #[trigger]
            has_all_code(g.text@, makers(plain), messages, services, actions),
{
    let (names, packages, plain) = choose|
        names: Seq<Seq<char>>,
        packages: Seq<PackageContents<'a>>,
        plain: P,
    |
        {
            &&& #[trigger] emit::are_packages(names, packages, messages, services, actions)
            &&& #[trigger] emit::is_plain(plain_types, packages, plain)
            &&& emit::is_generated(names, packages, makers(plain), Ok(g))
        };
    let made = makers(plain);
    assert forall|m: ResolvedMessage| #[trigger] messages.contains(m) implies code_is_in(
        g.text@,
        m.parsed.package@,
        m,
        made.message,
    ) by {
        every_message_is_generated(names, packages, messages, services, actions, made, g, m);
    }
    assert forall|s: ResolvedService| #[trigger] services.contains(s) implies code_is_in(
        g.text@,
        s.parsed.package@,
        s,
        made.service,
    ) by {
        every_service_is_generated(names, packages, messages, services, actions, made, g, s);
    }
    assert forall|a: ResolvedAction| #[trigger] actions.contains(a) implies code_is_in(
        g.text@,
        a.parsed.package@,
        a,
        made.action,
    ) by {
        every_action_is_generated(names, packages, messages, services, actions, made, g, a);
    }
    assert(has_all_code(g.text@, made, messages, services, actions));
}

/// The file `all` has code for every message, service and action, each in the
/// module of its package.
pub open spec fn has_all_code<E>(
    all: Seq<char>,
    makers: Makers<E>,
    messages: Seq<ResolvedMessage>,
    services: Seq<ResolvedService>,
    actions: Seq<ResolvedAction>,
) -> bool {
    &&& forall|m: ResolvedMessage| #[trigger]
        messages.contains(m) ==> code_is_in(all, m.parsed.package@, m, makers.message)
    &&& forall|s: ResolvedService| #[trigger]
        services.contains(s) ==> code_is_in(all, s.parsed.package@, s, makers.service)
    &&& forall|a: ResolvedAction| #[trigger]
        actions.contains(a) ==> code_is_in(all, a.parsed.package@, a, makers.action)
}

/// A text can name a module exactly if the identifier that is read in it is all
/// of it.
pub proof fn modules_are_named_by_identifiers(name: Seq<char>)
    ensures
        emit::is_identifier(name) <==> emit::identifier_in(name) == Some(name),
{
}

/// There is a text for each of the items.
pub open spec fn all_can<T, E>(items: Seq<T>, gives: emit::Gives<T, E>) -> bool {
    forall|k: int| 0 <= k < items.len() ==> emit::can_give(#[trigger] items[k], gives)
}

/// There is a text for all that belongs to a package.
pub open spec fn package_can<E>(contents: group::Contents, makers: Makers<E>) -> bool {
    &&& all_can(contents.messages, makers.message)
    &&& all_can(contents.services, makers.service)
    &&& all_can(contents.actions, makers.action)
}

proof fn given_can<T, E>(items: Seq<T>, gives: emit::Gives<T, E>, out: Seq<String>)
    requires
        emit::all_given(items, gives, out),
    ensures
        all_can(items, gives),
{
    assert forall|k: int| 0 <= k < items.len() implies emit::can_give(#[trigger] items[k], gives) by {
        let s = Ok::<String, E>(out[k]);
        assert(gives(items[k], s));
    }
}

/// The item `k` is the first without a text, and gives the error `e`.
pub open spec fn fails_at<T, E>(items: Seq<T>, gives: emit::Gives<T, E>, e: E, k: int) -> bool {
    &&& 0 <= k < items.len()
    &&& gives(items[k], Err::<String, E>(e))
    &&& all_can(items.take(k), gives)
}

/// The package `i` is the one that fails, with the error `e`: there is a text for
/// all of the packages before it. Of its own parts the messages come first, then
/// the services, then the actions, each in their order.
pub open spec fn fails_in<E>(
    packages: Seq<PackageContents>,
    makers: Makers<E>,
    e: GenerateError<E>,
    i: int,
) -> bool {
    &&& 0 <= i < packages.len()
    &&& forall|j: int| 0 <= j < i ==> package_can((#[trigger] packages[j])@, makers)
    &&& match e {
        GenerateError::Message(e) => exists|k: int| #[trigger]
            fails_at(packages[i]@.messages, makers.message, e, k),
        GenerateError::Service(e) => all_can(packages[i]@.messages, makers.message) && exists|
            k: int,
        | #[trigger] fails_at(packages[i]@.services, makers.service, e, k),
        GenerateError::Action(e) => all_can(packages[i]@.messages, makers.message) && all_can(
            packages[i]@.services,
            makers.service,
        ) && exists|k: int| #[trigger] fails_at(packages[i]@.actions, makers.action, e, k),
        GenerateError::Parse(_) => false,
    }
}

proof fn refused_at<T, E>(items: Seq<T>, gives: emit::Gives<T, E>, e: E)
    requires
        emit::refused(items, gives, e),
    ensures
        exists|k: int| #[trigger] fails_at(items, gives, e, k),
{
    let k = choose|k: int|
        {
            &&& 0 <= k < items.len()
            &&& gives(#[trigger] items[k], Err::<String, E>(e))
            &&& forall|j: int| 0 <= j < k ==> emit::can_give(#[trigger] items[j], gives)
        };
    assert forall|j: int| 0 <= j < k implies emit::can_give(#[trigger] items.take(k)[j], gives) by {
        assert(items.take(k)[j] == items[j]);
    }
    assert(fails_at(items, gives, e, k));
}

/// What is reported is the first failure: in the first package that has one, of
/// its messages before its services and of these before its actions. A text that
/// is no file of Rust items is reported only where there is a text for
/// everything.
pub proof fn first_failure_is_reported<E>(
    names: Seq<Seq<char>>,
    packages: Seq<PackageContents>,
    makers: Makers<E>,
    e: GenerateError<E>,
)
    requires
        emit::is_generated(names, packages, makers, Err(e)),
    ensures
        match e {
            GenerateError::Parse(_) => forall|j: int|
                0 <= j < packages.len() ==> package_can((#[trigger] packages[j])@, makers),
            _ => exists|i: int| #[trigger] fails_in(packages, makers, e, i),
        },
{
    let parts = choose|parts: Seq<PackageText>|
        {
            &&& #[trigger] emit::are_parts(names, packages, makers, parts)
            &&& match e {
                GenerateError::Parse(_) => parts.len() == packages.len(),
                e => {
                    &&& parts.len() < packages.len()
                    &&& emit::part_fails(packages[parts.len() as int]@, makers, e)
                },
            }
        };
    let i = parts.len() as int;
    assert forall|j: int| 0 <= j < i implies package_can((#[trigger] packages[j])@, makers) by {
        assert(emit::is_part(names[j], packages[j]@, makers, parts[j]));
        given_can(packages[j]@.messages, makers.message, parts[j].messages@);
        given_can(packages[j]@.services, makers.service, parts[j].services@);
        given_can(packages[j]@.actions, makers.action, parts[j].actions@);
    }
    match e {
        GenerateError::Message(x) => {
            refused_at(packages[i]@.messages, makers.message, x);
            assert(fails_in(packages, makers, e, i));
        },
        GenerateError::Service(x) => {
            let v = choose|v: Seq<String>|
                emit::all_given(packages[i]@.messages, makers.message, v);
            given_can(packages[i]@.messages, makers.message, v);
            refused_at(packages[i]@.services, makers.service, x);
            assert(fails_in(packages, makers, e, i));
        },
        GenerateError::Action(x) => {
            let v = choose|v: Seq<String>|
                emit::all_given(packages[i]@.messages, makers.message, v);
            given_can(packages[i]@.messages, makers.message, v);
            let w = choose|w: Seq<String>|
                emit::all_given(packages[i]@.services, makers.service, w);
            given_can(packages[i]@.services, makers.service, w);
            refused_at(packages[i]@.actions, makers.action, x);
            assert(fails_in(packages, makers, e, i));
        },
        GenerateError::Parse(_) => {},
    }
}

/// Generation comes to nothing only at a package that there is something in and
/// that cannot name a module.
pub proof fn only_unnamed_packages_stop_generation<
    'a,
    P,
    E,
    FP: Fn(&Vec<&'a ResolvedMessage>) -> P,
>(
    plain_types: FP,
    makers: spec_fn(P) -> Makers<E>,
    messages: Seq<ResolvedMessage>,
    services: Seq<ResolvedService>,
    actions: Seq<ResolvedAction>,
)
    requires
        emit::may_meet_unnamed(plain_types, makers, messages, services, actions),
    ensures
        exists|p: Seq<char>|
            !emit::is_identifier(p) && (#[trigger] group::gathered(
                p,
                messages,
                services,
                actions,
            )).messages.len() > 0,
{
    let (names, packages, plain) = choose|
        names: Seq<Seq<char>>,
        packages: Seq<PackageContents<'a>>,
        plain: P,
    |
        {
            &&& #[trigger] emit::are_packages(names, packages, messages, services, actions)
            &&& #[trigger] emit::is_plain(plain_types, packages, plain)
            &&& emit::comes_to_unnamed(names, packages, makers(plain))
        };
    let parts = choose|parts: Seq<PackageText>|
        {
            &&& #[trigger] emit::are_parts(names, packages, makers(plain), parts)
            &&& parts.len() < packages.len()
            &&& !emit::is_identifier(names[parts.len() as int])
        };
    let p = names[parts.len() as int];
    assert(names.contains(p));
    assert(group::gathered(p, messages, services, actions).messages.len() > 0);
}

/// Failures to generate are told apart.
pub proof fn failures_are_complained_of_apart<E>(a: GenerateError<E>, b: GenerateError<E>)
    ensures
        a.complaint() == b.complaint() ==> {
            &&& a is Message <==> b is Message
            &&& a is Service <==> b is Service
            &&& a is Action <==> b is Action
            &&& a is Parse <==> b is Parse
        },
{
    reveal_strlit("Failed to generate message implementations");
    reveal_strlit("Failed to generate service implementations");
    reveal_strlit("Failed to generate action implementations");
    reveal_strlit("Failed to parse generated code");
    assert("Failed to generate message implementations"@[19] == 'm');
    assert("Failed to generate service implementations"@[19] == 's');
    assert("Failed to generate action implementations"@[19] == 'a');
    assert("Failed to generate message implementations"@[10] == 'g');
    assert("Failed to generate service implementations"@[10] == 'g');
    assert("Failed to generate action implementations"@[10] == 'g');
    assert("Failed to parse generated code"@[10] == 'p');
}

} // verus!
