//! What holds of code generation as a whole.

use crate::codegen::config::MessageGenerator;
use crate::codegen::discover;
use crate::codegen::discover::Probe;
use crate::codegen::emit;
use crate::codegen::filter;
use crate::codegen::group;
use crate::codegen::group::PackageContents;
use crate::codegen::plan;
use crate::codegen::plan::{
    Discovered, Output, Resolved, ResolutionPlan, ResolveStep, StepInput, StepOutput,
};
use crate::codegen::types::{
    ParsedMessage, ParsedService, ResolvedAction, ResolvedMessage, ResolvedService,
};
use crate::names;
use crate::text;
use crate::text_laws;
use std::path::PathBuf;
use vstd::prelude::*;

verus! {

/// A message that is kept was there, is not of `actionlib_msgs`, and has no
/// field with wide characters. A message that is not kept has a reason.
pub proof fn kept_messages_can_be_generated(messages: Seq<ParsedMessage>, m: ParsedMessage)
    ensures
        filter::kept_messages(messages).contains(m) <==> messages.contains(m)
            && filter::verdict_of(m) is Keep,
        filter::kept_messages(messages).contains(m) ==> {
            &&& !filter::deprecated(m.package@, m.name@)
            &&& forall|i: int| 0 <= i < m.fields@.len() ==> !filter::wide(#[trigger] m.fields@[i])
        },
{
    let keep = |m: ParsedMessage| filter::verdict_of(m) is Keep;
    if messages.contains(m) && filter::verdict_of(m) is Keep {
        let i = messages.index_of(m);
        messages.lemma_filter_contains(keep, i);
    }
    if filter::kept_messages(messages).contains(m) {
        let i = messages.filter(keep).index_of(m);
        messages.lemma_filter_pred(keep, i);
        messages.lemma_filter_contains_rev(keep, m);
    }
}

/// What is kept is kept again.
pub proof fn filtering_is_idempotent(messages: Seq<ParsedMessage>, services: Seq<ParsedService>)
    ensures
        filter::kept_messages(filter::kept_messages(messages)) == filter::kept_messages(messages),
        filter::kept_services(filter::kept_services(services)) == filter::kept_services(services),
{
    let keep = |m: ParsedMessage| filter::verdict_of(m) is Keep;
    let spare = |s: ParsedService| !filter::deprecated(s.package@, s.name@);
    kept_again(messages, keep);
    kept_again(services, spare);
}

proof fn kept_again<T>(s: Seq<T>, keep: spec_fn(T) -> bool)
    ensures
        s.filter(keep).filter(keep) == s.filter(keep),
    decreases s.len(),
{
    reveal(Seq::filter);
    if s.len() > 0 {
        kept_again(s.drop_last(), keep);
        let before = s.drop_last().filter(keep);
        if keep(s.last()) {
            before.lemma_filter_push(s.last(), keep);
        }
    }
}

/// A package counts as resolved though it is not there only if it is one of the
/// standard packages, a crate has those, and it is neither local nor among the
/// dependencies that were loaded.
pub proof fn external_packages_are_not_loaded(
    g: MessageGenerator,
    user: Discovered,
    deps: Discovered,
    plan: ResolutionPlan,
    p: Seq<char>,
)
    requires
        plan.is_for(g, user, deps),
        plan.external_packages@.contains_key(p),
    ensures
        g.settings().external_crate is Some,
        plan::standard_names().contains(p),
        !g.settings().local_packages@.contains_key(p),
        !plan.deps.has_package(p),
{
}

/// A step that resolves dependencies.
pub open spec fn is_dependency(s: ResolveStep) -> bool {
    s is DependencyMessages || s is DependencyServices || s is DependencyActions
}

/// What the user's definitions depend on is resolved before any of them is, and
/// no step is taken twice.
pub proof fn dependencies_come_first(deps: Discovered)
    ensures
        forall|i: int, j: int|
            0 <= i < j < plan::steps_for(deps).len() ==> {
                &&& is_dependency(#[trigger] plan::steps_for(deps)[j]) ==> is_dependency(
                    #[trigger] plan::steps_for(deps)[i],
                )
                &&& plan::steps_for(deps)[i] != plan::steps_for(deps)[j]
            },
{
}

/// Code is generated for a resolved message exactly if it is one of the user's:
/// one of their messages that are kept has its package and its name.
pub proof fn only_user_messages_are_generated(
    g: MessageGenerator,
    user: Discovered,
    deps: Discovered,
    plan: ResolutionPlan,
    all: Seq<ResolvedMessage>,
    m: ResolvedMessage,
)
    requires
        plan.is_for(g, user, deps),
    ensures
        all.filter(
            |m: ResolvedMessage| plan.user_message_names@.contains_key(plan::resolved_name(m)),
        ).contains(m) <==> all.contains(m) && exists|i: int|
            0 <= i < plan.user.messages@.len() && plan::resolved_name(m) == filter::slashed(
                (#[trigger] plan.user.messages@[i]).package@,
                plan.user.messages@[i].name@,
            ),
{
    let keep = |m: ResolvedMessage|
        plan.user_message_names@.contains_key(plan::resolved_name(m));
    assert(keep(m) <==> plan.user.has_message(plan::resolved_name(m)));
    if all.contains(m) && keep(m) {
        let i = all.index_of(m);
        all.lemma_filter_contains(keep, i);
    }
    if all.filter(keep).contains(m) {
        let i = all.filter(keep).index_of(m);
        all.lemma_filter_pred(keep, i);
        all.lemma_filter_contains_rev(keep, m);
    }
}

/// No code is generated for a message that is among the dependencies and not
/// among the user's, though a user's package may have the same name.
pub proof fn dependencies_are_not_generated(
    g: MessageGenerator,
    user: Discovered,
    deps: Discovered,
    plan: ResolutionPlan,
    all: Seq<ResolvedMessage>,
    m: ResolvedMessage,
)
    requires
        plan.is_for(g, user, deps),
        plan.deps.has_message(plan::resolved_name(m)),
        !plan.user.has_message(plan::resolved_name(m)),
    ensures
        !all.filter(
            |m: ResolvedMessage| plan.user_message_names@.contains_key(plan::resolved_name(m)),
        ).contains(m),
{
    only_user_messages_are_generated(g, user, deps, plan, all, m);
}

/// No code is generated for what a step of the dependencies gives, and what the
/// dependencies are is resolved in those steps alone.
pub proof fn dependency_steps_give_no_code(
    plan: ResolutionPlan,
    step: ResolveStep,
    input: StepInput,
    output: StepOutput,
    before: Resolved,
    after: Resolved,
)
    requires
        plan.is_input(step, input),
        plan.is_kept(step, output, before, after),
    ensures
        is_dependency(step) ==> {
            &&& after.messages@ == before.messages@
            &&& after.services@ == before.services@
            &&& after.actions@ == before.actions@
        },
        !is_dependency(step) ==> (match input {
            StepInput::Messages(v) => v@ == plan.user.messages@,
            StepInput::Services(v) => v@ == plan.user.services@,
            StepInput::Actions(v) => v@ == plan.user.actions@,
        }),
{
}

/// A message belongs to its own package, and nothing else does.
pub proof fn messages_belong_to_their_package(
    p: Seq<char>,
    messages: Seq<ResolvedMessage>,
    m: ResolvedMessage,
)
    ensures
        group::messages_in(p, messages).contains(m) <==> messages.contains(m)
            && m.parsed.package@ == p,
    decreases messages.len(),
{
    if messages.len() > 0 {
        let before = messages.drop_last();
        let last = messages.last();
        messages_belong_to_their_package(p, before, m);
        assert(messages =~= before.push(last));
        contains_push(before, last, m);
        contains_push(group::messages_in(p, before), last, m);
    }
}

proof fn contains_push<T>(s: Seq<T>, a: T, x: T)
    ensures
        s.push(a).contains(x) <==> s.contains(x) || x == a,
{
    if s.contains(x) {
        let i = s.index_of(x);
        assert(s.push(a)[i] == x);
    }
    if x == a {
        assert(s.push(a)[s.len() as int] == x);
    }
    if s.push(a).contains(x) {
        let i = s.push(a).index_of(x);
        if i < s.len() {
            assert(s[i] == x);
        }
    }
}

/// How many messages services and actions are made of: each service of two,
/// and each action of at least one.
pub proof fn services_and_actions_add_messages(
    services: Seq<ResolvedService>,
    actions: Seq<ResolvedAction>,
)
    ensures
        group::service_messages(services).len() == 2 * services.len(),
        actions.len() <= group::action_messages(actions).len() <= 3 * actions.len(),
    decreases services.len() + actions.len(),
{
    if services.len() > 0 {
        services_and_actions_add_messages(services.drop_last(), actions);
    } else if actions.len() > 0 {
        services_and_actions_add_messages(services, actions.drop_last());
    }
}

/// A user's package takes the place of a bundled package of the same name.
pub proof fn user_packages_take_precedence<P>(
    paths: Seq<P>,
    names: Seq<Option<String>>,
    local: Map<Seq<char>, ()>,
    path: P,
)
    ensures
        discover::beside(paths, names, local).contains(path) <==> exists|i: int|
            0 <= i < paths.len() && #[trigger] paths[i] == path && !(names[i] matches Some(n)
                && local.contains_key(n@)),
    decreases paths.len(),
{
    if paths.len() > 0 {
        let before = paths.drop_last();
        let last = paths.len() - 1;
        user_packages_take_precedence(before, names, local, path);
        contains_push(discover::beside(before, names, local), paths.last(), path);
        assert(forall|i: int| 0 <= i < last ==> #[trigger] paths[i] == before[i]);
        assert(paths[last] == paths.last());
    }
}

/// What a definition brings into a package.
pub ghost struct Share {
    pub package: Seq<char>,
    pub messages: Seq<ResolvedMessage>,
}

/// What messages bring.
pub open spec fn message_shares(messages: Seq<ResolvedMessage>) -> Seq<Share> {
    Seq::new(
        messages.len(),
        |i: int| Share { package: messages[i].parsed.package@, messages: seq![messages[i]] },
    )
}

/// What services bring.
pub open spec fn service_shares(services: Seq<ResolvedService>) -> Seq<Share> {
    Seq::new(
        services.len(),
        |i: int|
            Share {
                package: services[i].parsed.package@,
                messages: seq![services[i].request, services[i].response],
            },
    )
}

/// What actions bring.
pub open spec fn action_shares(actions: Seq<ResolvedAction>) -> Seq<Share> {
    Seq::new(
        actions.len(),
        |i: int|
            Share {
                package: actions[i].parsed.package@,
                messages: seq![actions[i].goal] + group::if_any(actions[i].result) + group::if_any(
                    actions[i].feedback,
                ),
            },
    )
}

/// What is brought into the packages of a set.
pub open spec fn brought(shares: Seq<Share>, packages: Set<Seq<char>>) -> Seq<ResolvedMessage>
    decreases shares.len(),
{
    if shares.len() == 0 {
        Seq::empty()
    } else {
        brought(shares.drop_last(), packages) + (if packages.contains(shares.last().package) {
            shares.last().messages
        } else {
            Seq::empty()
        })
    }
}

proof fn brought_both(a: Seq<Share>, b: Seq<Share>, packages: Set<Seq<char>>)
    ensures
        brought(a + b, packages) == brought(a, packages) + brought(b, packages),
    decreases b.len(),
{
    if b.len() == 0 {
        assert(a + b =~= a);
        assert(brought(a, packages) + brought(b, packages) =~= brought(a, packages));
    } else {
        brought_both(a, b.drop_last(), packages);
        assert((a + b).drop_last() =~= a + b.drop_last());
        assert(brought(a + b, packages) =~= brought(a, packages) + brought(b, packages));
    }
}

proof fn brought_by_messages(p: Seq<char>, messages: Seq<ResolvedMessage>)
    ensures
        group::messages_in(p, messages) == brought(message_shares(messages), set![p]),
    decreases messages.len(),
{
    if messages.len() > 0 {
        brought_by_messages(p, messages.drop_last());
        assert(message_shares(messages).drop_last() =~= message_shares(messages.drop_last()));
        assert(group::messages_in(p, messages) =~= brought(message_shares(messages), set![p]));
    }
}

proof fn brought_by_services(p: Seq<char>, services: Seq<ResolvedService>)
    ensures
        group::service_messages(group::services_in(p, services)) == brought(
            service_shares(services),
            set![p],
        ),
    decreases services.len(),
{
    if services.len() > 0 {
        let before = group::services_in(p, services.drop_last());
        brought_by_services(p, services.drop_last());
        assert(service_shares(services).drop_last() =~= service_shares(services.drop_last()));
        if services.last().parsed.package@ == p {
            assert(group::services_in(p, services).drop_last() =~= before);
        } else {
            assert(brought(service_shares(services), set![p]) =~= brought(
                service_shares(services.drop_last()),
                set![p],
            ));
        }
    }
}

proof fn brought_by_actions(p: Seq<char>, actions: Seq<ResolvedAction>)
    ensures
        group::action_messages(group::actions_in(p, actions)) == brought(
            action_shares(actions),
            set![p],
        ),
    decreases actions.len(),
{
    if actions.len() > 0 {
        let before = group::actions_in(p, actions.drop_last());
        brought_by_actions(p, actions.drop_last());
        assert(action_shares(actions).drop_last() =~= action_shares(actions.drop_last()));
        if actions.last().parsed.package@ == p {
            assert(group::actions_in(p, actions).drop_last() =~= before);
        } else {
            assert(brought(action_shares(actions), set![p]) =~= brought(
                action_shares(actions.drop_last()),
                set![p],
            ));
        }
    }
}

/// All that definitions bring.
pub open spec fn all_shares(
    messages: Seq<ResolvedMessage>,
    services: Seq<ResolvedService>,
    actions: Seq<ResolvedAction>,
) -> Seq<Share> {
    message_shares(messages) + service_shares(services) + action_shares(actions)
}

proof fn gathered_is_brought(
    p: Seq<char>,
    messages: Seq<ResolvedMessage>,
    services: Seq<ResolvedService>,
    actions: Seq<ResolvedAction>,
)
    ensures
        group::gathered(p, messages, services, actions).messages == brought(
            all_shares(messages, services, actions),
            set![p],
        ),
{
    brought_by_messages(p, messages);
    brought_by_services(p, services);
    brought_by_actions(p, actions);
    brought_both(message_shares(messages), service_shares(services), set![p]);
    brought_both(
        message_shares(messages) + service_shares(services),
        action_shares(actions),
        set![p],
    );
}

proof fn one_more_package(shares: Seq<Share>, packages: Set<Seq<char>>, p: Seq<char>)
    requires
        !packages.contains(p),
    ensures
        brought(shares, packages.insert(p)).to_multiset() == brought(
            shares,
            packages,
        ).to_multiset().add(brought(shares, set![p]).to_multiset()),
    decreases shares.len(),
{
    if shares.len() > 0 {
        let before = shares.drop_last();
        let last = shares.last();
        one_more_package(before, packages, p);
        let none = Seq::<ResolvedMessage>::empty();
        let here = if packages.contains(last.package) {
            last.messages
        } else {
            none
        };
        let there = if set![p].contains(last.package) {
            last.messages
        } else {
            none
        };
        let both = if packages.insert(p).contains(last.package) {
            last.messages
        } else {
            none
        };
        vstd::seq_lib::lemma_multiset_commutative(brought(before, packages), here);
        vstd::seq_lib::lemma_multiset_commutative(brought(before, set![p]), there);
        vstd::seq_lib::lemma_multiset_commutative(brought(before, packages.insert(p)), both);
        none.to_multiset_ensures();
        assert(none.to_multiset() =~= vstd::multiset::Multiset::empty());
        assert(brought(shares, packages.insert(p)).to_multiset() =~= brought(
            shares,
            packages,
        ).to_multiset().add(brought(shares, set![p]).to_multiset()));
    } else {
        let none = Seq::<ResolvedMessage>::empty();
        none.to_multiset_ensures();
        assert(none.to_multiset() =~= vstd::multiset::Multiset::empty());
        assert(brought(shares, packages.insert(p)).to_multiset() =~= brought(
            shares,
            packages,
        ).to_multiset().add(brought(shares, set![p]).to_multiset()));
    }
}

proof fn brought_into_all(shares: Seq<Share>, packages: Set<Seq<char>>, others: Set<Seq<char>>)
    requires
        forall|i: int| 0 <= i < shares.len() ==> packages.contains((#[trigger] shares[i]).package),
        forall|i: int| 0 <= i < shares.len() ==> others.contains((#[trigger] shares[i]).package),
    ensures
        brought(shares, packages) == brought(shares, others),
    decreases shares.len(),
{
    if shares.len() > 0 {
        brought_into_all(shares.drop_last(), packages, others);
        assert(packages.contains(shares[shares.len() - 1].package));
        assert(others.contains(shares[shares.len() - 1].package));
    }
}

proof fn brings_something(shares: Seq<Share>, i: int, packages: Set<Seq<char>>)
    requires
        0 <= i < shares.len(),
        shares[i].messages.len() > 0,
        packages.contains(shares[i].package),
    ensures
        brought(shares, packages).len() > 0,
    decreases shares.len(),
{
    if i < shares.len() - 1 {
        brings_something(shares.drop_last(), i, packages);
    }
}

/// Code is generated exactly once for each message and for each message that a
/// service or an action is made of.
pub proof fn everything_is_generated_once(
    names: Seq<Seq<char>>,
    packages: Seq<PackageContents>,
    messages: Seq<ResolvedMessage>,
    services: Seq<ResolvedService>,
    actions: Seq<ResolvedAction>,
)
    requires
        emit::are_packages(names, packages, messages, services, actions),
    ensures
        group::flattened(packages).to_multiset() == messages.to_multiset().add(
            group::service_messages(services).to_multiset(),
        ).add(group::action_messages(actions).to_multiset()),
{
    let shares = all_shares(messages, services, actions);
    let everywhere = Set::<Seq<char>>::full();
    names::ascending_no_duplicates(names);
    generated_so_far(names, packages, messages, services, actions, names.len());
    assert(names.take(names.len() as int) =~= names);
    assert(packages.take(packages.len() as int) =~= packages);
    assert forall|i: int| 0 <= i < shares.len() implies names.to_set().contains(
        (#[trigger] shares[i]).package,
    ) by {
        let p = shares[i].package;
        gathered_is_brought(p, messages, services, actions);
        brings_something(shares, i, set![p]);
        assert(names.contains(p));
    }
    brought_into_all(shares, names.to_set(), everywhere);
    let m = message_shares(messages);
    let s = service_shares(services);
    let a = action_shares(actions);
    brought_both(m, s, everywhere);
    brought_both(m + s, a, everywhere);
    whole_messages(messages);
    whole_services(services);
    whole_actions(actions);
    let ms = brought(m, everywhere);
    let ss = brought(s, everywhere);
    vstd::seq_lib::lemma_multiset_commutative(ms, ss);
    vstd::seq_lib::lemma_multiset_commutative(ms + ss, brought(a, everywhere));
}

proof fn whole_messages(messages: Seq<ResolvedMessage>)
    ensures
        brought(message_shares(messages), Set::full()) == messages,
    decreases messages.len(),
{
    if messages.len() > 0 {
        whole_messages(messages.drop_last());
        assert(message_shares(messages).drop_last() =~= message_shares(messages.drop_last()));
    }
    assert(brought(message_shares(messages), Set::full()) =~= messages);
}

proof fn whole_services(services: Seq<ResolvedService>)
    ensures
        brought(service_shares(services), Set::full()) == group::service_messages(services),
    decreases services.len(),
{
    if services.len() > 0 {
        whole_services(services.drop_last());
        assert(service_shares(services).drop_last() =~= service_shares(services.drop_last()));
    }
}

proof fn whole_actions(actions: Seq<ResolvedAction>)
    ensures
        brought(action_shares(actions), Set::full()) == group::action_messages(actions),
    decreases actions.len(),
{
    if actions.len() > 0 {
        whole_actions(actions.drop_last());
        assert(action_shares(actions).drop_last() =~= action_shares(actions.drop_last()));
    }
}

proof fn generated_so_far(
    names: Seq<Seq<char>>,
    packages: Seq<PackageContents>,
    messages: Seq<ResolvedMessage>,
    services: Seq<ResolvedService>,
    actions: Seq<ResolvedAction>,
    n: nat,
)
    requires
        emit::are_packages(names, packages, messages, services, actions),
        names.no_duplicates(),
        n <= names.len(),
    ensures
        group::flattened(packages.take(n as int)).to_multiset() == brought(
            all_shares(messages, services, actions),
            names.take(n as int).to_set(),
        ).to_multiset(),
    decreases n,
{
    let shares = all_shares(messages, services, actions);
    if n == 0 {
        assert(names.take(0).to_set() =~= Set::empty());
        nothing_brought(shares);
        assert(group::flattened(packages.take(0)) =~= Seq::empty());
    } else {
        let k = n - 1;
        let p = names[k];
        let before = names.take(k).to_set();
        generated_so_far(names, packages, messages, services, actions, k as nat);
        assert(packages.take(n as int).drop_last() =~= packages.take(k));
        assert(packages.take(n as int).last() == packages[k]);
        gathered_is_brought(p, messages, services, actions);
        vstd::seq_lib::lemma_multiset_commutative(
            group::flattened(packages.take(k)),
            packages[k]@.messages,
        );
        assert(!before.contains(p)) by {
            if before.contains(p) {
                let i = names.take(k).index_of(p);
                assert(names[i] == names[k]);
            }
        }
        one_more_package(shares, before, p);
        assert(names.take(n as int).to_set() =~= before.insert(p)) by {
            assert(names.take(n as int) =~= names.take(k).push(p));
            assert forall|x: Seq<char>| names.take(n as int).to_set().contains(x)
                <==> before.insert(p).contains(x) by {
                contains_push(names.take(k), p, x);
            }
        }
    }
}

proof fn nothing_brought(shares: Seq<Share>)
    ensures
        brought(shares, Set::empty()) == Seq::<ResolvedMessage>::empty(),
    decreases shares.len(),
{
    if shares.len() > 0 {
        nothing_brought(shares.drop_last());
    }
    assert(brought(shares, Set::empty()) =~= Seq::<ResolvedMessage>::empty());
}

// ---------------------------------------------------------------------------
// What belongs to a package
// ---------------------------------------------------------------------------

/// To a package belong exactly the messages, services and actions that name it
/// as theirs, in the order in which they come.
pub proof fn grouped_by_package(
    p: Seq<char>,
    messages: Seq<ResolvedMessage>,
    services: Seq<ResolvedService>,
    actions: Seq<ResolvedAction>,
)
    ensures
        group::messages_in(p, messages) == messages.filter(
            |m: ResolvedMessage| m.parsed.package@ == p,
        ),
        group::services_in(p, services) == services.filter(
            |s: ResolvedService| s.parsed.package@ == p,
        ),
        group::actions_in(p, actions) == actions.filter(
            |a: ResolvedAction| a.parsed.package@ == p,
        ),
        ({
            let all = group::gathered(p, messages, services, actions);
            &&& all.services == services.filter(|s: ResolvedService| s.parsed.package@ == p)
            &&& all.actions == actions.filter(|a: ResolvedAction| a.parsed.package@ == p)
        }),
    decreases messages.len() + services.len() + actions.len(),
{
    reveal(Seq::filter);
    if messages.len() > 0 {
        grouped_by_package(p, messages.drop_last(), services, actions);
    } else if services.len() > 0 {
        grouped_by_package(p, messages, services.drop_last(), actions);
    } else if actions.len() > 0 {
        grouped_by_package(p, messages, services, actions.drop_last());
    }
}

/// The messages that services are made of are, service by service, its request
/// and then its response.
pub proof fn services_are_made_of_two(services: Seq<ResolvedService>, i: int)
    requires
        0 <= i < services.len(),
    ensures
        group::service_messages(services).len() == 2 * services.len(),
        group::service_messages(services)[2 * i] == services[i].request,
        group::service_messages(services)[2 * i + 1] == services[i].response,
    decreases services.len(),
{
    services_and_actions_add_messages(services, seq![]);
    services_and_actions_add_messages(services.drop_last(), seq![]);
    if i < services.len() - 1 {
        services_are_made_of_two(services.drop_last(), i);
    }
}

/// What an action is made of: its goal, its result if it has one, and its
/// feedback if it has any.
pub open spec fn parts_of(a: ResolvedAction) -> Seq<ResolvedMessage> {
    match (a.result, a.feedback) {
        (Some(result), Some(feedback)) => seq![a.goal, result, feedback],
        (Some(result), None) => seq![a.goal, result],
        (None, Some(feedback)) => seq![a.goal, feedback],
        (None, None) => seq![a.goal],
    }
}

/// The messages that actions are made of are, action by action, its goal, its
/// result and its feedback.
pub proof fn actions_are_made_of_their_parts(actions: Seq<ResolvedAction>, i: int)
    requires
        0 <= i < actions.len(),
    ensures
        group::action_messages(actions) == group::action_messages(actions.take(i)) + parts_of(
            actions[i],
        ) + group::action_messages(actions.skip(i + 1)),
        group::action_messages(Seq::empty()).len() == 0,
    decreases actions.len(),
{
    let last = actions.last();
    let before = actions.drop_last();
    assert(parts_of(last) =~= seq![last.goal] + group::if_any(last.result) + group::if_any(
        last.feedback,
    ));
    if i == actions.len() - 1 {
        assert(actions.take(i) =~= before);
        assert(actions.skip(i + 1) =~= Seq::empty());
        assert(group::action_messages(actions) =~= group::action_messages(actions.take(i))
            + parts_of(actions[i]) + group::action_messages(actions.skip(i + 1)));
    } else {
        actions_are_made_of_their_parts(before, i);
        assert(before.take(i) =~= actions.take(i));
        assert(actions.skip(i + 1).drop_last() =~= before.skip(i + 1));
        assert(actions.skip(i + 1).last() == last);
        assert(group::action_messages(actions) =~= group::action_messages(actions.take(i))
            + parts_of(actions[i]) + group::action_messages(actions.skip(i + 1)));
    }
}

/// The messages of a package are its own, then those that its services are made
/// of, then those that its actions are made of.
pub proof fn messages_of_a_package(
    p: Seq<char>,
    messages: Seq<ResolvedMessage>,
    services: Seq<ResolvedService>,
    actions: Seq<ResolvedAction>,
)
    ensures
        group::gathered(p, messages, services, actions).messages == messages.filter(
            |m: ResolvedMessage| m.parsed.package@ == p,
        ) + group::service_messages(
            services.filter(|s: ResolvedService| s.parsed.package@ == p),
        ) + group::action_messages(actions.filter(|a: ResolvedAction| a.parsed.package@ == p)),
{
    grouped_by_package(p, messages, services, actions);
}

// ---------------------------------------------------------------------------
// Which packages are found
// ---------------------------------------------------------------------------

/// Paths with what was found at them.
pub open spec fn with_probes<P>(paths: Seq<P>, probes: Seq<Probe>) -> Seq<(P, Probe)> {
    Seq::new(paths.len(), |i: int| (paths[i], probes[i]))
}

/// The chosen paths are those whose probes are to be kept, in their order.
pub proof fn chosen_in_order<P>(paths: Seq<P>, probes: Seq<Probe>, keep: spec_fn(Probe) -> bool)
    ensures
        discover::chosen(paths, probes, keep) == with_probes(paths, probes).filter(
            |x: (P, Probe)| keep(x.1),
        ).map_values(|x: (P, Probe)| x.0),
    decreases paths.len(),
{
    reveal(Seq::filter);
    let all = with_probes(paths, probes);
    let f = |x: (P, Probe)| keep(x.1);
    let first = |x: (P, Probe)| x.0;
    if paths.len() > 0 {
        chosen_in_order(paths.drop_last(), probes, keep);
        assert(all.drop_last() =~= with_probes(paths.drop_last(), probes));
        let before = all.drop_last().filter(f);
        assert(before.push(all.last()).map_values(first) =~= before.map_values(first).push(
            paths.last(),
        ));
    }
    assert(discover::chosen(paths, probes, keep) =~= all.filter(f).map_values(first));
}

proof fn chosen_members<P>(
    paths: Seq<P>,
    probes: Seq<Probe>,
    keep: spec_fn(Probe) -> bool,
    path: P,
)
    ensures
        discover::chosen(paths, probes, keep).contains(path) <==> exists|i: int|
            0 <= i < paths.len() && #[trigger] paths[i] == path && keep(probes[i]),
    decreases paths.len(),
{
    if paths.len() > 0 {
        let before = paths.drop_last();
        let last = paths.len() - 1;
        chosen_members(before, probes, keep, path);
        contains_push(discover::chosen(before, probes, keep), paths.last(), path);
        assert(forall|i: int| 0 <= i < last ==> #[trigger] paths[i] == before[i]);
        assert(paths[last] == paths.last());
    }
}

/// An entry of the message path that exists and has a directory of messages, of
/// services or of actions is among the packages, whichever of them it has; and
/// every package is such an entry.
pub proof fn entries_with_interfaces_are_packages(
    entries: Seq<Seq<char>>,
    probes: Seq<Probe>,
    entry: Seq<char>,
)
    ensures
        discover::packages_among(entries, probes).contains(entry) <==> exists|i: int|
            0 <= i < entries.len() && #[trigger] entries[i] == entry && probes[i].exists && (
            probes[i].msg || probes[i].srv || probes[i].action),
{
    let keep = |p: Probe| discover::entry_verdict(p) is Package;
    chosen_members(entries, probes, keep, entry);
    assert forall|i: int| 0 <= i < entries.len() implies (keep(#[trigger] probes[i]) <==> probes[i].exists
        && (probes[i].msg || probes[i].srv || probes[i].action)) by {}
}

/// The packages come in the order of the message path, each as often as it
/// stands there.
pub proof fn packages_in_the_order_of_the_path(entries: Seq<Seq<char>>, probes: Seq<Probe>)
    ensures
        discover::packages_among(entries, probes) == with_probes(entries, probes).filter(
            |x: (Seq<char>, Probe)| x.1.exists && (x.1.msg || x.1.srv || x.1.action),
        ).map_values(|x: (Seq<char>, Probe)| x.0),
{
    let keep = |p: Probe| discover::entry_verdict(p) is Package;
    chosen_in_order(entries, probes, keep);
    let f = |x: (Seq<char>, Probe)| keep(x.1);
    let g = |x: (Seq<char>, Probe)| x.1.exists && (x.1.msg || x.1.srv || x.1.action);
    same_filter(with_probes(entries, probes), f, g);
}

proof fn same_filter<T>(s: Seq<T>, f: spec_fn(T) -> bool, g: spec_fn(T) -> bool)
    requires
        forall|x: T| #[trigger] f(x) == g(x),
    ensures
        s.filter(f) == s.filter(g),
    decreases s.len(),
{
    reveal(Seq::filter);
    if s.len() > 0 {
        same_filter(s.drop_last(), f, g);
        assert(f(s.last()) == g(s.last()));
    }
}

/// `more` finds all that `less` finds.
pub open spec fn finds_more(less: Probe, more: Probe) -> bool {
    &&& less.exists ==> more.exists
    &&& less.is_dir ==> more.is_dir
    &&& less.msg ==> more.msg
    &&& less.srv ==> more.srv
    &&& less.action ==> more.action
}

/// One more directory never takes a package away, neither one of the message
/// path nor a bundled one.
pub proof fn more_directories_keep_packages<P>(
    entries: Seq<P>,
    less: Seq<Probe>,
    more: Seq<Probe>,
    texts: Seq<Seq<char>>,
    i: int,
)
    requires
        0 <= i < entries.len(),
        texts.len() == entries.len(),
        finds_more(less[i], more[i]),
    ensures
        less[i].exists && discover::entry_verdict(less[i]) is Package ==> discover::packages_among(
            texts,
            more,
        ).contains(texts[i]),
        less[i].is_dir && less[i].defines() ==> discover::bundled_among(entries, more).contains(
            entries[i],
        ),
{
    entries_with_interfaces_are_packages(texts, more, texts[i]);
    directories_with_interfaces_are_bundled(entries, more, entries[i]);
}

/// A directory among the bundled assets that has a directory of messages, of
/// services or of actions is a bundled package, whichever of them it has; and
/// every bundled package is such a directory.
pub proof fn directories_with_interfaces_are_bundled<P>(
    paths: Seq<P>,
    probes: Seq<Probe>,
    path: P,
)
    ensures
        discover::bundled_among(paths, probes).contains(path) <==> exists|i: int|
            0 <= i < paths.len() && #[trigger] paths[i] == path && probes[i].is_dir && (
            probes[i].msg || probes[i].srv || probes[i].action),
{
    let keep = |p: Probe| p.is_dir && p.defines();
    chosen_members(paths, probes, keep, path);
    assert forall|i: int| 0 <= i < paths.len() implies (keep(#[trigger] probes[i]) <==> probes[i].is_dir
        && (probes[i].msg || probes[i].srv || probes[i].action)) by {}
}

/// The bundled packages come in the order in which the assets are listed.
pub proof fn bundled_in_the_order_of_the_assets<P>(paths: Seq<P>, probes: Seq<Probe>)
    ensures
        discover::bundled_among(paths, probes) == with_probes(paths, probes).filter(
            |x: (P, Probe)| x.1.is_dir && (x.1.msg || x.1.srv || x.1.action),
        ).map_values(|x: (P, Probe)| x.0),
{
    let keep = |p: Probe| p.is_dir && p.defines();
    chosen_in_order(paths, probes, keep);
    let f = |x: (P, Probe)| keep(x.1);
    let g = |x: (P, Probe)| x.1.is_dir && (x.1.msg || x.1.srv || x.1.action);
    same_filter(with_probes(paths, probes), f, g);
}

/// An entry is missing exactly if nothing is there, and has no interfaces
/// exactly if it is there without a directory of messages, of services or of
/// actions.
pub proof fn entries_are_judged_by_what_is_there(probe: Probe)
    ensures
        discover::entry_verdict(probe) is Missing <==> !probe.exists,
        discover::entry_verdict(probe) is NoInterfaces <==> probe.exists && !probe.msg && !probe.srv
            && !probe.action,
        discover::entry_verdict(probe) is Package <==> probe.exists && (probe.msg || probe.srv
            || probe.action),
{
}

/// The entries of a message path are those before a colon and those after it.
pub proof fn entries_on_both_sides_of_a_colon(a: Seq<char>, b: Seq<char>)
    ensures
        discover::entries_of(a.push(':') + b) == discover::entries_of(a) + discover::entries_of(b),
{
    text_laws::sides_are_split_on_their_own(a, ':', b);
    let keep = |p: Seq<char>| p.len() > 0;
    let x = discover::trimmed_all(text::pieces(a, ':'));
    let y = discover::trimmed_all(text::pieces(b, ':'));
    assert(discover::trimmed_all(text::pieces(a.push(':') + b, ':')) =~= x + y);
    filter_both(x, y, keep);
}

proof fn filter_both<T>(a: Seq<T>, b: Seq<T>, keep: spec_fn(T) -> bool)
    ensures
        (a + b).filter(keep) == a.filter(keep) + b.filter(keep),
    decreases b.len(),
{
    reveal(Seq::filter);
    if b.len() == 0 {
        assert(a + b =~= a);
        assert(a.filter(keep) + b.filter(keep) =~= a.filter(keep));
    } else {
        filter_both(a, b.drop_last(), keep);
        assert((a + b).drop_last() =~= a + b.drop_last());
        assert((a + b).filter(keep) =~= a.filter(keep) + b.filter(keep));
    }
}

/// What has no colon is one entry, without the space around it, or none where
/// there is nothing but space.
pub proof fn one_entry_between_colons(part: Seq<char>)
    requires
        !part.contains(':'),
    ensures
        discover::entries_of(part) == if text::trimmed(part).len() == 0 {
            Seq::<Seq<char>>::empty()
        } else {
            seq![text::trimmed(part)]
        },
{
    reveal(Seq::filter);
    text_laws::undivided_is_one_piece(part, ':');
    let all = discover::trimmed_all(text::pieces(part, ':'));
    assert(all =~= seq![text::trimmed(part)]);
    assert(all.drop_last() =~= Seq::empty());
    let keep = |p: Seq<char>| p.len() > 0;
    assert(all.drop_last().filter(keep) =~= Seq::empty());
    assert(all.filter(keep) =~= if text::trimmed(part).len() == 0 {
        Seq::<Seq<char>>::empty()
    } else {
        seq![text::trimmed(part)]
    });
}

/// The bundled packages that are read come in their order, and all are read but
/// those whose name a user's package has.
pub proof fn read_beside_in_order<P>(
    paths: Seq<P>,
    names: Seq<Option<String>>,
    local: Map<Seq<char>, ()>,
)
    ensures
        discover::beside(paths, names, local) == Seq::new(
            paths.len(),
            |i: int| (paths[i], names[i]),
        ).filter(
            |x: (P, Option<String>)| !(x.1 matches Some(n) && local.contains_key(n@)),
        ).map_values(|x: (P, Option<String>)| x.0),
    decreases paths.len(),
{
    reveal(Seq::filter);
    let all = Seq::new(paths.len(), |i: int| (paths[i], names[i]));
    let f = |x: (P, Option<String>)| !(x.1 matches Some(n) && local.contains_key(n@));
    let first = |x: (P, Option<String>)| x.0;
    if paths.len() > 0 {
        let shorter = paths.drop_last();
        read_beside_in_order(shorter, names, local);
        assert(all.drop_last() =~= Seq::new(shorter.len(), |i: int| (shorter[i], names[i])));
        let before = all.drop_last().filter(f);
        assert(before.push(all.last()).map_values(first) =~= before.map_values(first).push(
            paths.last(),
        ));
    }
    assert(discover::beside(paths, names, local) =~= all.filter(f).map_values(first));
}

/// The bundled packages lie below the assets, those of Humble apart from the
/// others.
pub proof fn assets_lie_apart(dir: Seq<char>)
    ensures
        discover::bundled_place(dir, true) == seq![dir, "assets"@, "humble"@],
        discover::bundled_place(dir, false) == seq![dir, "assets"@, "jazzy"@],
        discover::bundled_place(dir, true) != discover::bundled_place(dir, false),
{
    reveal_strlit("humble");
    reveal_strlit("jazzy");
    assert(discover::bundled_place(dir, true)[2].len() == 6);
    assert(discover::bundled_place(dir, false)[2].len() == 5);
}

// ---------------------------------------------------------------------------
// What is left out
// ---------------------------------------------------------------------------

/// A message is left out exactly if it is of `actionlib_msgs`, is named as the
/// request or the response of a service, lies in a directory `srv`, or has a
/// field with wide characters. The first of these that holds is the reason.
pub proof fn left_out_for_a_reason(msg: ParsedMessage)
    ensures
        ({
            let of_actionlib = text::begins_with(
                msg.package@ + "/"@ + msg.name@,
                "actionlib_msgs/"@,
            );
            let of_a_service = text::finishes_with(msg.name@, "_Request"@) || text::finishes_with(
                msg.name@,
                "_Response"@,
            );
            let in_srv = text::occurs_in(msg.path@, "/srv/"@);
            let is_wide = exists|i: int|
                0 <= i < msg.fields@.len() && text::occurs_in(
                    (#[trigger] msg.fields@[i]).field_type.base_type@,
                    "wstring"@,
                );
            let v = filter::verdict_of(msg);
            &&& v is Keep <==> !of_actionlib && !of_a_service && !in_srv && !is_wide
            &&& v is Deprecated <==> of_actionlib
            &&& v is ServiceFile <==> of_a_service && !of_actionlib
            &&& v is ServiceDirectory <==> in_srv && !of_a_service && !of_actionlib
            &&& v is WideString <==> is_wide && !in_srv && !of_a_service && !of_actionlib
        }),
{
    let is_wide = exists|i: int|
        0 <= i < msg.fields@.len() && text::occurs_in(
            (#[trigger] msg.fields@[i]).field_type.base_type@,
            "wstring"@,
        );
    if is_wide {
        let i = choose|i: int|
            0 <= i < msg.fields@.len() && text::occurs_in(
                (#[trigger] msg.fields@[i]).field_type.base_type@,
                "wstring"@,
            );
        assert(filter::wide(msg.fields@[i]));
    }
    if exists|i: int| 0 <= i < msg.fields@.len() && filter::wide(#[trigger] msg.fields@[i]) {
        let i = choose|i: int| 0 <= i < msg.fields@.len() && filter::wide(#[trigger] msg.fields@[i]);
        assert(text::occurs_in(msg.fields@[i].field_type.base_type@, "wstring"@));
    }
}

/// A definition is of `actionlib_msgs` exactly if that is its package, as long as
/// the package has no slash in its name. Its services are left out as its
/// messages are, and no others.
pub proof fn actionlib_is_known_by_its_package(package: Seq<char>, name: Seq<char>)
    requires
        !package.contains('/'),
    ensures
        filter::deprecated(package, name) <==> package == "actionlib_msgs"@,
{
    let full = package + "/"@ + name;
    let p = "actionlib_msgs"@;
    let head = "actionlib_msgs/"@;
    reveal_strlit("/");
    assert(head =~= p + "/"@ && p.len() == 14 && head.len() == 15) by {
        reveal_strlit("actionlib_msgs");
        reveal_strlit("actionlib_msgs/");
    }
    assert(head[14] == '/');
    assert forall|i: int| 0 <= i < 14 implies #[trigger] p[i] != '/' by {
        reveal_strlit("actionlib_msgs");
    }
    if package == p {
        text_laws::beginnings(full, head, name);
        assert(full =~= head + name);
    }
    if text::begins_with(full, head) {
        assert(forall|i: int| 0 <= i < 15 ==> #[trigger] full[i] == head[i]) by {
            assert(forall|i: int|
                0 <= i < 15 ==> #[trigger] full.subrange(0, 15)[i] == full[i]);
        }
        if package.len() < 14 {
            let n = package.len() as int;
            assert(full[n] == '/');
            assert(head[n] == p[n]);
        } else if package.len() > 14 {
            assert(full[14] == package[14]);
            assert(package.contains('/'));
        } else {
            assert forall|i: int| 0 <= i < 14 implies #[trigger] package[i] == p[i] by {
                assert(full[i] == head[i]);
            }
            assert(package =~= p);
        }
    }
}

/// Of a message that is kept nothing is said; of one that is left out it is said
/// which one it is, as a warning where it is the fault of a field, else as a mere
/// notice.
pub proof fn left_out_is_said(msg: ParsedMessage)
    ensures
        filter::notice_of(msg) is None <==> filter::verdict_of(msg) is Keep,
        filter::notice_of(msg) matches Some(s) ==> {
            &&& text::occurs_in(s, msg.package@ + "/"@ + msg.name@)
            &&& text::begins_with(s, "cargo:warning="@) <==> filter::verdict_of(msg) is WideString
            &&& text::begins_with(s, "cargo:info="@) <==> !(filter::verdict_of(msg) is WideString)
        },
{
    let name = msg.package@ + "/"@ + msg.name@;
    match filter::verdict_of(msg) {
        filter::Verdict::Keep => {},
        filter::Verdict::Deprecated => {
            notice_literals();
            is_a_notice("Filtered deprecated actionlib_msgs: "@, name);
        },
        filter::Verdict::ServiceFile => {
            notice_literals();
            is_a_notice("Filtered service msg file: "@, name);
        },
        filter::Verdict::ServiceDirectory => {
            notice_literals();
            is_a_notice("Filtered srv directory message: "@, name);
        },
        filter::Verdict::WideString => {
            notice_literals();
            is_a_warning("Skipping message "@, name, " due to wstring field (unsupported)"@);
        },
    }
}

proof fn notice_literals()
    ensures
        "cargo:info=Filtered deprecated actionlib_msgs: "@ == "cargo:info="@
            + "Filtered deprecated actionlib_msgs: "@,
        "cargo:info=Filtered service msg file: "@ == "cargo:info="@ + "Filtered service msg file: "@,
        "cargo:info=Filtered srv directory message: "@ == "cargo:info="@
            + "Filtered srv directory message: "@,
        "cargo:warning=Skipping message "@ == "cargo:warning="@ + "Skipping message "@,
        "cargo:info="@.len() == 11,
        "cargo:info="@[6] == 'i',
        "cargo:warning="@.len() == 14,
        "cargo:warning="@[6] == 'w',
{
    reveal_strlit("cargo:info=");
    reveal_strlit("cargo:warning=");
    assert("cargo:info=Filtered deprecated actionlib_msgs: "@ =~= "cargo:info="@
        + "Filtered deprecated actionlib_msgs: "@) by {
        reveal_strlit("cargo:info=Filtered deprecated actionlib_msgs: ");
        reveal_strlit("Filtered deprecated actionlib_msgs: ");
    }
    assert("cargo:info=Filtered service msg file: "@ =~= "cargo:info="@
        + "Filtered service msg file: "@) by {
        reveal_strlit("cargo:info=Filtered service msg file: ");
        reveal_strlit("Filtered service msg file: ");
    }
    assert("cargo:info=Filtered srv directory message: "@ =~= "cargo:info="@
        + "Filtered srv directory message: "@) by {
        reveal_strlit("cargo:info=Filtered srv directory message: ");
        reveal_strlit("Filtered srv directory message: ");
    }
    assert("cargo:warning=Skipping message "@ =~= "cargo:warning="@ + "Skipping message "@) by {
        reveal_strlit("cargo:warning=Skipping message ");
        reveal_strlit("Skipping message ");
    }
}

proof fn is_a_notice(what: Seq<char>, name: Seq<char>)
    ensures
        ({
            let s = "cargo:info="@ + what + name;
            &&& text::occurs_in(s, name)
            &&& text::begins_with(s, "cargo:info="@)
            &&& !text::begins_with(s, "cargo:warning="@)
        }),
{
    notice_literals();
    let s = "cargo:info="@ + what + name;
    text_laws::occurs_in_the_middle("cargo:info="@ + what, name, seq![]);
    assert(s =~= "cargo:info="@ + what + name + seq![]);
    assert(s =~= "cargo:info="@ + (what + name));
    text_laws::beginnings(s, "cargo:info="@, what + name);
    assert(s[6] == 'i');
    if text::begins_with(s, "cargo:warning="@) {
        assert(s.subrange(0, 14)[6] == s[6]);
    }
}

proof fn is_a_warning(what: Seq<char>, name: Seq<char>, why: Seq<char>)
    ensures
        ({
            let s = "cargo:warning="@ + what + name + why;
            &&& text::occurs_in(s, name)
            &&& text::begins_with(s, "cargo:warning="@)
            &&& !text::begins_with(s, "cargo:info="@)
        }),
{
    notice_literals();
    let s = "cargo:warning="@ + what + name + why;
    text_laws::occurs_in_the_middle("cargo:warning="@ + what, name, why);
    assert(s =~= "cargo:warning="@ + (what + name + why));
    text_laws::beginnings(s, "cargo:warning="@, what + name + why);
    assert(s[6] == 'w');
    if text::begins_with(s, "cargo:info="@) {
        assert(s.subrange(0, 11)[6] == s[6]);
    }
}

/// Services are left out exactly if they are of `actionlib_msgs`, and the rest
/// stay in their order; no action is left out.
pub proof fn services_and_actions_stay(found: Discovered, kept: Discovered)
    requires
        found.filtered_to(kept),
    ensures
        kept.services@ == found.services@.filter(
            |s: ParsedService|
                !text::begins_with(s.package@ + "/"@ + s.name@, "actionlib_msgs/"@),
        ),
        kept.actions@ == found.actions@,
        kept.messages@ == found.messages@.filter(
            |m: ParsedMessage| filter::verdict_of(m) is Keep,
        ),
{
    let f = |s: ParsedService| !filter::deprecated(s.package@, s.name@);
    let g = |s: ParsedService|
        !text::begins_with(s.package@ + "/"@ + s.name@, "actionlib_msgs/"@);
    same_filter(found.services@, f, g);
}

// ---------------------------------------------------------------------------
// Steps and outputs
// ---------------------------------------------------------------------------

/// The place of a step among all.
pub open spec fn step_rank(s: ResolveStep) -> int {
    match s {
        ResolveStep::DependencyMessages => 0,
        ResolveStep::DependencyServices => 1,
        ResolveStep::DependencyActions => 2,
        ResolveStep::UserMessages => 3,
        ResolveStep::UserServices => 4,
        ResolveStep::UserActions => 5,
    }
}

/// Dependencies are resolved as far as there are any, and the user's messages,
/// services and actions always; messages before services and these before
/// actions, what is depended on before all else.
pub proof fn every_step_is_taken_in_order(deps: Discovered, step: ResolveStep)
    ensures
        plan::steps_for(deps).contains(step) <==> match step {
            ResolveStep::DependencyMessages => deps.messages@.len() > 0,
            ResolveStep::DependencyServices => deps.services@.len() > 0,
            ResolveStep::DependencyActions => deps.actions@.len() > 0,
            _ => true,
        },
        forall|i: int, j: int|
            0 <= i < j < plan::steps_for(deps).len() ==> step_rank(
                #[trigger] plan::steps_for(deps)[i],
            ) < step_rank(#[trigger] plan::steps_for(deps)[j]),
{
    let all = plan::steps_for(deps);
    let m: int = if deps.messages@.len() > 0 { 1 } else { 0 };
    let s: int = if deps.services@.len() > 0 { 1 } else { 0 };
    let a: int = if deps.actions@.len() > 0 { 1 } else { 0 };
    assert(all.len() == m + s + a + 3);
    assert(m > 0 ==> all[0] == ResolveStep::DependencyMessages);
    assert(s > 0 ==> all[m] == ResolveStep::DependencyServices);
    assert(a > 0 ==> all[m + s] == ResolveStep::DependencyActions);
    assert(all[m + s + a] == ResolveStep::UserMessages);
    assert(all[m + s + a + 1] == ResolveStep::UserServices);
    assert(all[m + s + a + 2] == ResolveStep::UserActions);
    if all.contains(step) {
        let k = all.index_of(step);
        assert(all[k] == step);
    }
}

/// The place of an output among all.
pub open spec fn output_rank(o: Output) -> int {
    match o {
        Output::Json(_) => 0,
        Output::Cdr => 1,
        Output::Protobuf => 2,
    }
}

/// An output is made exactly if the settings ask for it, and protobuf only if
/// the build can; the definitions for other generators come first, protobuf last,
/// and none twice.
pub proof fn outputs_are_those_asked_for(g: &MessageGenerator, protobuf_built: bool, o: Output)
    ensures
        plan::asked_outputs(g, protobuf_built).contains(o) <==> match o {
            Output::Json(path) => g.settings().json_out == Some(*path),
            Output::Cdr => g.settings().generate_cdr,
            Output::Protobuf => g.settings().generate_protobuf && protobuf_built,
        },
        forall|i: int, j: int|
            0 <= i < j < plan::asked_outputs(g, protobuf_built).len() ==> output_rank(
                #[trigger] plan::asked_outputs(g, protobuf_built)[i],
            ) < output_rank(#[trigger] plan::asked_outputs(g, protobuf_built)[j]),
{
    let all = plan::asked_outputs(g, protobuf_built);
    let m: int = if g.settings().json_out is Some { 1 } else { 0 };
    let s: int = if g.settings().generate_cdr { 1 } else { 0 };
    let a: int = if g.settings().generate_protobuf && protobuf_built { 1 } else { 0 };
    assert(all.len() == m + s + a);
    assert(m > 0 ==> all[0] == Output::Json(&g.settings().json_out->0));
    assert(s > 0 ==> all[m] == Output::Cdr);
    assert(a > 0 ==> all[m + s] == Output::Protobuf);
    if all.contains(o) {
        let k = all.index_of(o);
        assert(all[k] == o);
    }
}

/// A package is one of the standard packages exactly if it is one of these.
pub proof fn standard_packages_are_these(p: Seq<char>)
    ensures
        plan::standard_names().contains(p) <==> {
            ||| p == "builtin_interfaces"@
            ||| p == "std_msgs"@
            ||| p == "geometry_msgs"@
            ||| p == "sensor_msgs"@
            ||| p == "nav_msgs"@
            ||| p == "action_msgs"@
            ||| p == "unique_identifier_msgs"@
            ||| p == "service_msgs"@
            ||| p == "example_interfaces"@
            ||| p == "action_tutorials_interfaces"@
            ||| p == "test_msgs"@
        },
{
    let all = plan::standard_names();
    assert(all[0] == "builtin_interfaces"@);
    assert(all[1] == "std_msgs"@);
    assert(all[2] == "geometry_msgs"@);
    assert(all[3] == "sensor_msgs"@);
    assert(all[4] == "nav_msgs"@);
    assert(all[5] == "action_msgs"@);
    assert(all[6] == "unique_identifier_msgs"@);
    assert(all[7] == "service_msgs"@);
    assert(all[8] == "example_interfaces"@);
    assert(all[9] == "action_tutorials_interfaces"@);
    assert(all[10] == "test_msgs"@);
    if all.contains(p) {
        let i = all.index_of(p);
        assert(all[i] == p);
    }
}

/// Where a crate has the standard packages, each of them counts as resolved
/// unless it is local or was loaded; without such a crate none does.
pub proof fn standard_packages_count_as_resolved(
    g: MessageGenerator,
    user: Discovered,
    deps: Discovered,
    plan: ResolutionPlan,
    p: Seq<char>,
)
    requires
        plan.is_for(g, user, deps),
    ensures
        plan.external_packages@.contains_key(p) <==> g.settings().external_crate is Some
            && plan::standard_names().contains(p) && !g.settings().local_packages@.contains_key(p)
            && !plan.deps.has_package(p),
        plan.is_humble == g.settings().is_humble,
{
}

/// Each step is handed its own list, all of it; the other lists stay, and asked
/// again the step is handed nothing.
pub proof fn steps_are_handed_their_lists(
    before: ResolutionPlan,
    step: ResolveStep,
    input: StepInput,
    after: ResolutionPlan,
    again: StepInput,
)
    requires
        before.is_input(step, input),
        before.is_without(step, after),
        after.is_input(step, again),
    ensures
        match step {
            ResolveStep::DependencyMessages => input matches StepInput::Messages(v) && v@
                == before.deps.messages@,
            ResolveStep::DependencyServices => input matches StepInput::Services(v) && v@
                == before.deps.services@,
            ResolveStep::DependencyActions => input matches StepInput::Actions(v) && v@
                == before.deps.actions@,
            ResolveStep::UserMessages => input matches StepInput::Messages(v) && v@
                == before.user.messages@,
            ResolveStep::UserServices => input matches StepInput::Services(v) && v@
                == before.user.services@,
            ResolveStep::UserActions => input matches StepInput::Actions(v) && v@
                == before.user.actions@,
        },
        match again {
            StepInput::Messages(v) => v@.len() == 0,
            StepInput::Services(v) => v@.len() == 0,
            StepInput::Actions(v) => v@.len() == 0,
        },
        forall|other: ResolveStep, list: StepInput|
            other != step ==> (#[trigger] before.is_input(other, list) <==> after.is_input(
                other,
                list,
            )),
{
}

/// Of what the user's steps give all services and actions are kept, and of the
/// messages those that have the package and name of one of the user's, in their
/// order. A step of one kind leaves what was kept of the others.
pub proof fn user_steps_are_kept(
    plan: ResolutionPlan,
    step: ResolveStep,
    output: StepOutput,
    before: Resolved,
    after: Resolved,
    m: ResolvedMessage,
)
    requires
        plan.is_kept(step, output, before, after),
    ensures
        match (step, output) {
            (ResolveStep::UserMessages, StepOutput::Messages(v)) => {
                &&& after.messages@.contains(m) <==> v@.contains(m)
                    && plan.user_message_names@.contains_key(
                    m.parsed.package@ + "/"@ + m.parsed.name@,
                )
                &&& after.services@ == before.services@ && after.actions@ == before.actions@
            },
            (ResolveStep::UserServices, StepOutput::Services(v)) => {
                &&& after.services@ == v@
                &&& after.messages@ == before.messages@ && after.actions@ == before.actions@
            },
            (ResolveStep::UserActions, StepOutput::Actions(v)) => {
                &&& after.actions@ == v@
                &&& after.messages@ == before.messages@ && after.services@ == before.services@
            },
            _ => after.messages@ == before.messages@ && after.services@ == before.services@
                && after.actions@ == before.actions@,
        },
{
    if let StepOutput::Messages(v) = output {
        let keep = |m: ResolvedMessage|
            plan.user_message_names@.contains_key(plan::resolved_name(m));
        if v@.contains(m) && keep(m) {
            v@.lemma_filter_contains(keep, v@.index_of(m));
        }
        if v@.filter(keep).contains(m) {
            v@.lemma_filter_pred(keep, v@.filter(keep).index_of(m));
            v@.lemma_filter_contains_rev(keep, m);
        }
    }
}

// ---------------------------------------------------------------------------
// What a user gets
// ---------------------------------------------------------------------------

/// Without a message path there is nothing to find; with one, the packages among
/// its entries are found, and it is an error exactly if there are none.
pub proof fn discovery_fails_only_without_packages(
    msg_path: Option<Seq<char>>,
    probes: Seq<Probe>,
    r: Result<Vec<String>, discover::DiscoverError>,
    i: int,
)
    requires
        discover::is_discovery(msg_path, probes, r),
    ensures
        r == Err::<Vec<String>, discover::DiscoverError>(discover::DiscoverError::NotSet)
            <==> msg_path is None,
        msg_path matches Some(path) ==> {
            let entries = discover::entries_of(path);
            &&& 0 <= i < entries.len() && probes[i].exists && (probes[i].msg || probes[i].srv
                || probes[i].action) ==> r is Ok && text::texts(r->Ok_0@).contains(entries[i])
            &&& r matches Ok(v) ==> v@.len() > 0
            &&& r is Err ==> r->Err_0 == discover::DiscoverError::NoPackages
        },
{
    if let Some(path) = msg_path {
        let entries = discover::entries_of(path);
        if 0 <= i < entries.len() {
            entries_with_interfaces_are_packages(entries, probes, entries[i]);
        }
        if let Ok(v) = r {
            assert(text::texts(v@).len() == v@.len());
        }
    }
}

/// Without assets there are no bundled packages; with assets they are those among
/// the paths.
pub proof fn assets_bring_the_bundled_packages<P>(paths: Seq<P>, probes: Seq<Probe>, path: P)
    ensures
        discover::bundled_found(false, paths, probes).len() == 0,
        discover::bundled_found(true, paths, probes).contains(path) <==> exists|i: int|
            0 <= i < paths.len() && #[trigger] paths[i] == path && probes[i].is_dir && (
            probes[i].msg || probes[i].srv || probes[i].action),
{
    directories_with_interfaces_are_bundled(paths, probes, path);
}

/// For a user's packages CDR types with type information are generated, and
/// nothing for protobuf or other generators. The standard messages are taken from
/// their crate unless the user has packages of their names, and the bundled
/// packages that are read have none of the user's names.
pub proof fn users_get_cdr_types(
    r: discover::UserGeneration,
    output_dir: PathBuf,
    is_humble: bool,
    names: Seq<Option<String>>,
    bundled: Seq<PathBuf>,
    bundled_names: Seq<Option<String>>,
    protobuf_built: bool,
    i: int,
)
    requires
        r.is_for(output_dir, is_humble, names, bundled, bundled_names),
    ensures
        plan::asked_outputs(&r.generator, protobuf_built) == seq![Output::Cdr],
        r.generator.settings().generate_type_info,
        r.generator.settings().is_humble == is_humble,
        r.generator.settings().output_dir == output_dir,
        r.generator.settings().external_crate matches Some(e) && e@ == "hiroz_msgs"@,
        0 <= i < names.len() && names[i] is Some
            ==> r.generator.settings().local_packages@.contains_key(names[i]->0@),
        0 <= i < bundled.len() && bundled_names[i] is None ==> r.dep_packages@.contains(bundled[i]),
        0 <= i < bundled.len() && bundled_names[i] is Some && !discover::has_name(
            names,
            bundled_names[i]->0@,
        ) ==> r.dep_packages@.contains(bundled[i]),
        forall|path: PathBuf| #[trigger]
            r.dep_packages@.contains(path) ==> exists|k: int|
                0 <= k < bundled.len() && #[trigger] bundled[k] == path && !(
                bundled_names[k] matches Some(n) && discover::has_name(names, n@)),
{
    let local = r.generator.settings().local_packages@;
    assert(plan::asked_outputs(&r.generator, protobuf_built) =~= seq![Output::Cdr]);
    if 0 <= i < names.len() && names[i] is Some {
        assert(discover::has_name(names, names[i]->0@));
    }
    if 0 <= i < bundled.len() {
        user_packages_take_precedence(bundled, bundled_names, local, bundled[i]);
    }
    assert forall|path: PathBuf| #[trigger] r.dep_packages@.contains(path) implies exists|k: int|
        0 <= k < bundled.len() && #[trigger] bundled[k] == path && !(
        bundled_names[k] matches Some(n) && discover::has_name(names, n@)) by {
        user_packages_take_precedence(bundled, bundled_names, local, path);
        let k = choose|k: int|
            0 <= k < bundled.len() && #[trigger] bundled[k] == path && !(
            bundled_names[k] matches Some(n) && local.contains_key(n@));
        assert(bundled[k] == path);
    }
}

/// A package is among definitions exactly if a message, a service or an action of
/// it is.
pub proof fn packages_are_those_of_definitions(d: Discovered, p: Seq<char>, i: int)
    ensures
        0 <= i < d.messages@.len() ==> d.has_package(d.messages@[i].package@) && d.has_message(
            d.messages@[i].package@ + "/"@ + d.messages@[i].name@,
        ),
        0 <= i < d.services@.len() ==> d.has_package(d.services@[i].package@),
        0 <= i < d.actions@.len() ==> d.has_package(d.actions@[i].package@),
        d.has_package(p) ==> (exists|k: int|
            0 <= k < d.messages@.len() && (#[trigger] d.messages@[k]).package@ == p) || (exists|
            k: int,
        | 0 <= k < d.services@.len() && (#[trigger] d.services@[k]).package@ == p) || (exists|k: int|
            0 <= k < d.actions@.len() && (#[trigger] d.actions@[k]).package@ == p),
        d.has_message(p) ==> exists|k: int|
            0 <= k < d.messages@.len() && (#[trigger] d.messages@[k]).package@ + "/"@
                + d.messages@[k].name@ == p,
{
}

/// Protobuf definitions are generated for a message exactly if its package is not
/// left out.
pub proof fn protobuf_leaves_out_packages(
    g: MessageGenerator,
    messages: Seq<ResolvedMessage>,
    m: ResolvedMessage,
)
    ensures
        g.with_protobuf(messages).contains(m) <==> messages.contains(m)
            && !g.settings().protobuf_excluded_packages@.contains_key(m.parsed.package@),
        g.settings().protobuf_excluded_packages@ == Map::<Seq<char>, ()>::empty()
            ==> g.with_protobuf(messages) == messages,
{
    let keep = |m: ResolvedMessage|
        !g.settings().protobuf_excluded_packages@.contains_key(m.parsed.package@);
    filter_members(messages, keep, m);
    if g.settings().protobuf_excluded_packages@ == Map::<Seq<char>, ()>::empty() {
        all_stay(messages, keep);
    }
}

proof fn filter_members<T>(s: Seq<T>, keep: spec_fn(T) -> bool, x: T)
    ensures
        s.filter(keep).contains(x) <==> s.contains(x) && keep(x),
{
    if s.contains(x) && keep(x) {
        s.lemma_filter_contains(keep, s.index_of(x));
    }
    if s.filter(keep).contains(x) {
        s.lemma_filter_pred(keep, s.filter(keep).index_of(x));
        s.lemma_filter_contains_rev(keep, x);
    }
}

proof fn all_stay<T>(s: Seq<T>, keep: spec_fn(T) -> bool)
    requires
        forall|x: T| #[trigger] keep(x),
    ensures
        s.filter(keep) == s,
    decreases s.len(),
{
    reveal(Seq::filter);
    if s.len() > 0 {
        all_stay(s.drop_last(), keep);
        assert(keep(s.last()));
        assert(s.drop_last().push(s.last()) =~= s);
    }
}

/// Of the resolved messages those are selected, in their order, that have the
/// package and the name of one of the user's messages that are kept.
pub proof fn selected_are_the_users(
    g: MessageGenerator,
    user: Discovered,
    deps: Discovered,
    plan: ResolutionPlan,
    all: Seq<ResolvedMessage>,
    m: ResolvedMessage,
)
    requires
        plan.is_for(g, user, deps),
    ensures
        plan.selected(all).contains(m) <==> all.contains(m) && exists|i: int|
            0 <= i < plan.user.messages@.len() && (#[trigger] plan.user.messages@[i]).package@
                + "/"@ + plan.user.messages@[i].name@ == m.parsed.package@ + "/"@ + m.parsed.name@,
        plan.selected(all) == all.filter(
            |m: ResolvedMessage|
                plan.user_message_names@.contains_key(
                    m.parsed.package@ + "/"@ + m.parsed.name@,
                ),
        ),
{
    let f = |m: ResolvedMessage| plan.user_message_names@.contains_key(plan::resolved_name(m));
    let h = |m: ResolvedMessage|
        plan.user_message_names@.contains_key(m.parsed.package@ + "/"@ + m.parsed.name@);
    same_filter(all, f, h);
    filter_members(all, f, m);
    let name = m.parsed.package@ + "/"@ + m.parsed.name@;
    assert(plan.user_message_names@.contains_key(name) <==> plan.user.has_message(name));
}

/// A plan is for what is kept of the definitions that were found: its steps go by
/// the dependencies that are kept, and its names are those of the user's messages
/// that are kept.
pub proof fn plans_are_for_what_is_kept(
    g: MessageGenerator,
    user: Discovered,
    deps: Discovered,
    plan: ResolutionPlan,
    step: ResolveStep,
    i: int,
)
    requires
        plan.is_for(g, user, deps),
    ensures
        plan.user.messages@ == user.messages@.filter(
            |m: ParsedMessage| filter::verdict_of(m) is Keep,
        ),
        plan.deps.messages@ == deps.messages@.filter(
            |m: ParsedMessage| filter::verdict_of(m) is Keep,
        ),
        plan.user.actions@ == user.actions@,
        plan.deps.actions@ == deps.actions@,
        plan.steps@.contains(step) <==> match step {
            ResolveStep::DependencyMessages => plan.deps.messages@.len() > 0,
            ResolveStep::DependencyServices => plan.deps.services@.len() > 0,
            ResolveStep::DependencyActions => plan.deps.actions@.len() > 0,
            _ => true,
        },
        0 <= i < plan.user.messages@.len() ==> plan.user_message_names@.contains_key(
            plan.user.messages@[i].package@ + "/"@ + plan.user.messages@[i].name@,
        ),
{
    services_and_actions_stay(user, plan.user);
    services_and_actions_stay(deps, plan.deps);
    every_step_is_taken_in_order(plan.deps, step);
    packages_are_those_of_definitions(plan.user, Seq::empty(), i);
}

/// Failures are told apart: no two steps are complained of in the same words.
pub proof fn steps_are_complained_of_apart(a: ResolveStep, b: ResolveStep)
    ensures
        a.complaint() == b.complaint() ==> a == b,
{
    reveal_strlit("Failed to resolve dependency message hashes");
    reveal_strlit("Failed to resolve dependency service hashes");
    reveal_strlit("Failed to resolve dependency action hashes");
    reveal_strlit("Failed to resolve message dependencies");
    reveal_strlit("Failed to resolve service dependencies");
    reveal_strlit("Failed to resolve action dependencies");
    assert(ResolveStep::DependencyMessages.complaint()[18] == 'd');
    assert(ResolveStep::DependencyServices.complaint()[18] == 'd');
    assert(ResolveStep::DependencyActions.complaint()[18] == 'd');
    assert(ResolveStep::UserMessages.complaint()[18] == 'm');
    assert(ResolveStep::UserServices.complaint()[18] == 's');
    assert(ResolveStep::UserActions.complaint()[18] == 'a');
    assert(ResolveStep::DependencyMessages.complaint()[29] == 'm');
    assert(ResolveStep::DependencyServices.complaint()[29] == 's');
    assert(ResolveStep::DependencyActions.complaint()[29] == 'a');
}

} // verus!
