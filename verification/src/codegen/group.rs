//! Resolved definitions by package.

use crate::codegen::types::{ResolvedAction, ResolvedMessage, ResolvedService};
use crate::names::NameMap;
use vstd::prelude::*;
use vstd::string::*;

verus! {

/// What belongs to a package.
pub struct PackageContents<'a> {
    /// The messages, then the requests and responses of the services, then the
    /// goals, results and feedbacks of the actions.
    pub messages: Vec<&'a ResolvedMessage>,
    pub services: Vec<&'a ResolvedService>,
    pub actions: Vec<&'a ResolvedAction>,
}

/// What belongs to a package.
pub ghost struct Contents {
    pub messages: Seq<ResolvedMessage>,
    pub services: Seq<ResolvedService>,
    pub actions: Seq<ResolvedAction>,
}

/// The values that are referred to.
pub open spec fn values_of<T>(refs: Seq<&T>) -> Seq<T> {
    Seq::new(refs.len(), |i: int| *refs[i])
}

impl<'a> View for PackageContents<'a> {
    type V = Contents;

    open spec fn view(&self) -> Contents {
        Contents {
            messages: values_of(self.messages@),
            services: values_of(self.services@),
            actions: values_of(self.actions@),
        }
    }
}

/// Nothing.
pub open spec fn no_contents() -> Contents {
    Contents { messages: Seq::empty(), services: Seq::empty(), actions: Seq::empty() }
}

/// The messages of the package `p`.
pub open spec fn messages_in(p: Seq<char>, messages: Seq<ResolvedMessage>) -> Seq<ResolvedMessage>
    decreases messages.len(),
{
    if messages.len() == 0 {
        Seq::empty()
    } else {
        let before = messages_in(p, messages.drop_last());
        if messages.last().parsed.package@ == p {
            before.push(messages.last())
        } else {
            before
        }
    }
}

/// The services of the package `p`.
pub open spec fn services_in(p: Seq<char>, services: Seq<ResolvedService>) -> Seq<ResolvedService>
    decreases services.len(),
{
    if services.len() == 0 {
        Seq::empty()
    } else {
        let before = services_in(p, services.drop_last());
        if services.last().parsed.package@ == p {
            before.push(services.last())
        } else {
            before
        }
    }
}

/// The actions of the package `p`.
pub open spec fn actions_in(p: Seq<char>, actions: Seq<ResolvedAction>) -> Seq<ResolvedAction>
    decreases actions.len(),
{
    if actions.len() == 0 {
        Seq::empty()
    } else {
        let before = actions_in(p, actions.drop_last());
        if actions.last().parsed.package@ == p {
            before.push(actions.last())
        } else {
            before
        }
    }
}

/// The messages that services are made of.
pub open spec fn service_messages(services: Seq<ResolvedService>) -> Seq<ResolvedMessage>
    decreases services.len(),
{
    if services.len() == 0 {
        Seq::empty()
    } else {
        service_messages(services.drop_last()) + seq![
            services.last().request,
            services.last().response,
        ]
    }
}

/// A value that may be there, as a sequence.
pub open spec fn if_any(m: Option<ResolvedMessage>) -> Seq<ResolvedMessage> {
    match m {
        Some(m) => seq![m],
        None => Seq::empty(),
    }
}

/// The messages that actions are made of.
pub open spec fn action_messages(actions: Seq<ResolvedAction>) -> Seq<ResolvedMessage>
    decreases actions.len(),
{
    if actions.len() == 0 {
        Seq::empty()
    } else {
        action_messages(actions.drop_last()) + (seq![actions.last().goal] + if_any(
            actions.last().result,
        ) + if_any(actions.last().feedback))
    }
}

/// What belongs to the package `p`.
pub open spec fn gathered(
    p: Seq<char>,
    messages: Seq<ResolvedMessage>,
    services: Seq<ResolvedService>,
    actions: Seq<ResolvedAction>,
) -> Contents {
    Contents {
        messages: messages_in(p, messages) + service_messages(services_in(p, services))
            + action_messages(actions_in(p, actions)),
        services: services_in(p, services),
        actions: actions_in(p, actions),
    }
}

/// What a map has for a package.
pub open spec fn contents_at(m: Map<Seq<char>, PackageContents>, p: Seq<char>) -> Contents {
    if m.contains_key(p) {
        m[p]@
    } else {
        no_contents()
    }
}

/// `m` holds what belongs to each package, and no package without anything.
pub open spec fn is_grouping(
    m: Map<Seq<char>, PackageContents>,
    messages: Seq<ResolvedMessage>,
    services: Seq<ResolvedService>,
    actions: Seq<ResolvedAction>,
) -> bool {
    forall|p: Seq<char>|
        {
            &&& #[trigger] m.contains_key(p) <==> gathered(p, messages, services, actions).messages.len() > 0
            &&& contents_at(m, p) == gathered(p, messages, services, actions)
        }
}

/// Takes what belongs to a package out of the map.
fn take_contents<'a>(packages: &mut NameMap<PackageContents<'a>>, p: &str) -> (c: PackageContents<
    'a,
>)
    ensures
        c@ == contents_at(old(packages)@, p@),
        final(packages)@ == old(packages)@.remove(p@),
{
    match packages.remove(p) {
        Some(c) => c,
        None => {
            let c = PackageContents {
                messages: Vec::new(),
                services: Vec::new(),
                actions: Vec::new(),
            };
            assert(c@.messages =~= no_contents().messages);
            assert(c@.services =~= no_contents().services);
            assert(c@.actions =~= no_contents().actions);
            c
        },
    }
}

/// Groups definitions by package.
pub fn group_packages<'a>(
    messages: &'a Vec<ResolvedMessage>,
    services: &'a Vec<ResolvedService>,
    actions: &'a Vec<ResolvedAction>,
) -> (packages: NameMap<PackageContents<'a>>)
    ensures
        is_grouping(packages@, messages@, services@, actions@),
{
    let mut packages: NameMap<PackageContents<'a>> = NameMap::new();
    let ghost no_services = Seq::<ResolvedService>::empty();
    let ghost no_actions = Seq::<ResolvedAction>::empty();
    let mut i: usize = 0;
    while i < messages.len()
        invariant
            i <= messages@.len(),
            no_services == Seq::<ResolvedService>::empty(),
            no_actions == Seq::<ResolvedAction>::empty(),
            is_grouping(packages@, messages@.take(i as int), no_services, no_actions),
        decreases messages@.len() - i,
    {
        let m = &messages[i];
        let ghost before = packages@;
        let mut c = take_contents(&mut packages, m.parsed.package.as_str());
        let ghost had = c@;
        c.messages.push(m);
        assert(c@.messages =~= had.messages.push(*m));
        let ghost now = c@;
        packages.insert(m.parsed.package.clone(), c);
        proof {
            let ms = messages@.take(i as int);
            assert(messages@.take(i + 1).drop_last() =~= ms);
            assert forall|p: Seq<char>|
                {
                    &&& #[trigger] packages@.contains_key(p) <==> gathered(
                        p,
                        messages@.take(i + 1),
                        no_services,
                        no_actions,
                    ).messages.len() > 0
                    &&& contents_at(packages@, p) == gathered(
                        p,
                        messages@.take(i + 1),
                        no_services,
                        no_actions,
                    )
                } by {
                let g = gathered(p, ms, no_services, no_actions);
                let h = gathered(p, messages@.take(i + 1), no_services, no_actions);
                assert(before.contains_key(p) <==> g.messages.len() > 0);
                assert(contents_at(before, p) == g);
                if p == m.parsed.package@ {
                    assert(h.messages =~= g.messages.push(*m));
                    assert(contents_at(packages@, p) == now);
                } else {
                    assert(contents_at(packages@, p) == contents_at(before, p));
                }
            }
        }
        i += 1;
    }
    assert(messages@.take(i as int) =~= messages@);
    i = 0;
    assert(services@.take(0) =~= no_services);
    while i < services.len()
        invariant
            i <= services@.len(),
            no_actions == Seq::<ResolvedAction>::empty(),
            is_grouping(packages@, messages@, services@.take(i as int), no_actions),
        decreases services@.len() - i,
    {
        let s = &services[i];
        let ghost before = packages@;
        let mut c = take_contents(&mut packages, s.parsed.package.as_str());
        let ghost had = c@;
        c.messages.push(&s.request);
        c.messages.push(&s.response);
        c.services.push(s);
        assert(c@.messages =~= had.messages + seq![s.request, s.response]);
        assert(c@.services =~= had.services.push(*s));
        assert(c@.actions =~= had.actions);
        let ghost now = c@;
        packages.insert(s.parsed.package.clone(), c);
        proof {
            let ss = services@.take(i as int);
            assert(services@.take(i + 1).drop_last() =~= ss);
            assert forall|p: Seq<char>|
                {
                    &&& #[trigger] packages@.contains_key(p) <==> gathered(
                        p,
                        messages@,
                        services@.take(i + 1),
                        no_actions,
                    ).messages.len() > 0
                    &&& contents_at(packages@, p) == gathered(
                        p,
                        messages@,
                        services@.take(i + 1),
                        no_actions,
                    )
                } by {
                let g = gathered(p, messages@, ss, no_actions);
                let h = gathered(p, messages@, services@.take(i + 1), no_actions);
                assert(before.contains_key(p) <==> g.messages.len() > 0);
                assert(contents_at(before, p) == g);
                if p == s.parsed.package@ {
                    assert(h.services =~= g.services.push(*s));
                    assert(h.services.drop_last() =~= g.services);
                    assert(h.messages =~= g.messages + seq![s.request, s.response]);
                    assert(contents_at(packages@, p) == now);
                } else {
                    assert(contents_at(packages@, p) == contents_at(before, p));
                }
            }
        }
        i += 1;
    }
    assert(services@.take(i as int) =~= services@);
    i = 0;
    assert(actions@.take(0) =~= no_actions);
    while i < actions.len()
        invariant
            i <= actions@.len(),
            is_grouping(packages@, messages@, services@, actions@.take(i as int)),
        decreases actions@.len() - i,
    {
        let a = &actions[i];
        let ghost before = packages@;
        let mut c = take_contents(&mut packages, a.parsed.package.as_str());
        let ghost had = c@;
        let ghost more = seq![a.goal] + if_any(a.result) + if_any(a.feedback);
        c.messages.push(&a.goal);
        match &a.result {
            Some(m) => c.messages.push(m),
            None => {},
        }
        match &a.feedback {
            Some(m) => c.messages.push(m),
            None => {},
        }
        c.actions.push(a);
        assert(c@.messages =~= had.messages + more);
        assert(c@.services =~= had.services);
        assert(c@.actions =~= had.actions.push(*a));
        let ghost now = c@;
        packages.insert(a.parsed.package.clone(), c);
        proof {
            let aa = actions@.take(i as int);
            assert(actions@.take(i + 1).drop_last() =~= aa);
            assert forall|p: Seq<char>|
                {
                    &&& #[trigger] packages@.contains_key(p) <==> gathered(
                        p,
                        messages@,
                        services@,
                        actions@.take(i + 1),
                    ).messages.len() > 0
                    &&& contents_at(packages@, p) == gathered(
                        p,
                        messages@,
                        services@,
                        actions@.take(i + 1),
                    )
                } by {
                let g = gathered(p, messages@, services@, aa);
                let h = gathered(p, messages@, services@, actions@.take(i + 1));
                assert(before.contains_key(p) <==> g.messages.len() > 0);
                assert(contents_at(before, p) == g);
                if p == a.parsed.package@ {
                    assert(h.actions =~= g.actions.push(*a));
                    assert(h.actions.drop_last() =~= g.actions);
                    assert(h.messages =~= g.messages + more);
                    assert(contents_at(packages@, p) == now);
                } else {
                    assert(contents_at(packages@, p) == contents_at(before, p));
                }
            }
        }
        i += 1;
    }
    assert(actions@.take(i as int) =~= actions@);
    packages
}

/// The messages of packages, one package after the other.
pub open spec fn flattened(packages: Seq<PackageContents>) -> Seq<ResolvedMessage>
    decreases packages.len(),
{
    if packages.len() == 0 {
        Seq::empty()
    } else {
        flattened(packages.drop_last()) + packages.last()@.messages
    }
}

/// The messages of all packages, the packages in ascending order.
pub fn all_messages<'a>(packages: &NameMap<PackageContents<'a>>) -> (v: Vec<&'a ResolvedMessage>)
    ensures
        values_of(v@) == flattened(packages.values()),
{
    let n: usize = packages.len();
    proof {
        packages.layout();
    }
    let mut v: Vec<&'a ResolvedMessage> = Vec::new();
    let mut i: usize = 0;
    assert(values_of(v@) =~= flattened(packages.values().take(0)));
    while i < n
        invariant
            i <= n,
            n == packages.keys().len(),
            n == packages.values().len(),
            values_of(v@) == flattened(packages.values().take(i as int)),
        decreases n - i,
    {
        let c = packages.value_at(i);
        let ghost start = values_of(v@);
        let mut j: usize = 0;
        while j < c.messages.len()
            invariant
                j <= c.messages@.len(),
                values_of(v@) =~= start + values_of(c.messages@).take(j as int),
            decreases c.messages@.len() - j,
        {
            let ghost vs = values_of(v@);
            v.push(c.messages[j]);
            assert(values_of(v@) =~= vs.push(*c.messages@[j as int]));
            j += 1;
        }
        proof {
            let vals = packages.values();
            assert(values_of(c.messages@).take(j as int) =~= values_of(c.messages@));
            assert(vals.take(i + 1).drop_last() =~= vals.take(i as int));
            assert(vals.take(i + 1).last() == vals[i as int]);
        }
        i += 1;
    }
    assert(packages.values().take(n as int) =~= packages.values());
    v
}

} // verus!
