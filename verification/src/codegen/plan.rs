//! What is resolved, in what order, and what is generated from it.

use crate::codegen::config::MessageGenerator;
use crate::codegen::filter;
use crate::codegen::types::{
    ParsedAction, ParsedMessage, ParsedService, ResolvedAction, ResolvedMessage, ResolvedService,
};
use crate::names::NameMap;
use crate::text;
use crate::text::join3;
use std::path::PathBuf;
use vstd::prelude::*;
use vstd::string::*;

verus! {

/// The definitions that were found in some packages.
pub struct Discovered {
    pub messages: Vec<ParsedMessage>,
    pub services: Vec<ParsedService>,
    pub actions: Vec<ParsedAction>,
}

impl Discovered {
    /// No definitions.
    pub fn none() -> (d: Self)
        ensures
            d.messages@.len() == 0,
            d.services@.len() == 0,
            d.actions@.len() == 0,
    {
        Discovered { messages: Vec::new(), services: Vec::new(), actions: Vec::new() }
    }

    /// A definition is of the package `p`.
    pub open spec fn has_package(&self, p: Seq<char>) -> bool {
        ||| exists|i: int| 0 <= i < self.messages@.len() && (#[trigger] self.messages@[i]).package@ == p
        ||| exists|i: int| 0 <= i < self.services@.len() && (#[trigger] self.services@[i]).package@ == p
        ||| exists|i: int| 0 <= i < self.actions@.len() && (#[trigger] self.actions@[i]).package@ == p
    }

    /// A message is among the definitions whose package and name, with a slash
    /// between them, are `k`.
    pub open spec fn has_message(&self, k: Seq<char>) -> bool {
        exists|i: int|
            0 <= i < self.messages@.len() && k == filter::slashed(
                (#[trigger] self.messages@[i]).package@,
                self.messages@[i].name@,
            )
    }

    /// The messages among the definitions, each by its package and name with a
    /// slash between them.
    pub fn message_names(&self) -> (names: NameMap<()>)
        ensures
            forall|k: Seq<char>| #[trigger] names@.contains_key(k) <==> self.has_message(k),
    {
        let mut names: NameMap<()> = NameMap::new();
        let mut i: usize = 0;
        while i < self.messages.len()
            invariant
                i <= self.messages@.len(),
                forall|k: Seq<char>| #[trigger]
                    names@.contains_key(k) <==> exists|j: int|
                        0 <= j < i && k == filter::slashed(
                            (#[trigger] self.messages@[j]).package@,
                            self.messages@[j].name@,
                        ),
            decreases self.messages@.len() - i,
        {
            let ghost before = names@;
            let m = &self.messages[i];
            names.insert(join3(m.package.as_str(), "/", m.name.as_str()), ());
            assert forall|k: Seq<char>| #[trigger]
                names@.contains_key(k) <==> exists|j: int|
                    0 <= j < i + 1 && k == filter::slashed(
                        (#[trigger] self.messages@[j]).package@,
                        self.messages@[j].name@,
                    ) by {
                assert(names@.contains_key(k) <==> before.contains_key(k) || k == filter::slashed(
                    self.messages@[i as int].package@,
                    self.messages@[i as int].name@,
                ));
            }
            i += 1;
        }
        names
    }

    /// `kept` is what is left of these definitions.
    pub open spec fn filtered_to(&self, kept: Discovered) -> bool {
        &&& kept.messages@ == filter::kept_messages(self.messages@)
        &&& kept.services@ == filter::kept_services(self.services@)
        &&& kept.actions@ == self.actions@
    }

    /// Leaves out what is not generated.
    pub fn filtered(self) -> (kept: Discovered)
        ensures
            self.filtered_to(kept),
    {
        Discovered {
            messages: MessageGenerator::filter_messages(self.messages),
            services: MessageGenerator::filter_services(self.services),
            actions: self.actions,
        }
    }

    /// Adds the packages of the definitions to `names`.
    pub fn add_packages(&self, names: &mut NameMap<()>)
        ensures
            forall|p: Seq<char>| #[trigger]
                final(names)@.contains_key(p) <==> old(names)@.contains_key(p)
                    || self.has_package(p),
    {
        let ghost start = names@;
        let mut i: usize = 0;
        while i < self.messages.len()
            invariant
                i <= self.messages@.len(),
                forall|p: Seq<char>| #[trigger]
                    names@.contains_key(p) <==> start.contains_key(p) || exists|j: int|
                        0 <= j < i && (#[trigger] self.messages@[j]).package@ == p,
            decreases self.messages@.len() - i,
        {
            let ghost before = names@;
            names.insert(self.messages[i].package.clone(), ());
            assert forall|p: Seq<char>| #[trigger]
                names@.contains_key(p) <==> start.contains_key(p) || exists|j: int|
                    0 <= j < i + 1 && (#[trigger] self.messages@[j]).package@ == p by {
                assert(names@.contains_key(p) <==> before.contains_key(p) || p
                    == self.messages@[i as int].package@);
            }
            i += 1;
        }
        let ghost middle = names@;
        i = 0;
        while i < self.services.len()
            invariant
                i <= self.services@.len(),
                forall|p: Seq<char>| #[trigger]
                    names@.contains_key(p) <==> middle.contains_key(p) || exists|j: int|
                        0 <= j < i && (#[trigger] self.services@[j]).package@ == p,
            decreases self.services@.len() - i,
        {
            let ghost before = names@;
            names.insert(self.services[i].package.clone(), ());
            assert forall|p: Seq<char>| #[trigger]
                names@.contains_key(p) <==> middle.contains_key(p) || exists|j: int|
                    0 <= j < i + 1 && (#[trigger] self.services@[j]).package@ == p by {
                assert(names@.contains_key(p) <==> before.contains_key(p) || p
                    == self.services@[i as int].package@);
            }
            i += 1;
        }
        let ghost last = names@;
        i = 0;
        while i < self.actions.len()
            invariant
                i <= self.actions@.len(),
                forall|p: Seq<char>| #[trigger]
                    names@.contains_key(p) <==> last.contains_key(p) || exists|j: int|
                        0 <= j < i && (#[trigger] self.actions@[j]).package@ == p,
            decreases self.actions@.len() - i,
        {
            let ghost before = names@;
            names.insert(self.actions[i].package.clone(), ());
            assert forall|p: Seq<char>| #[trigger]
                names@.contains_key(p) <==> last.contains_key(p) || exists|j: int|
                    0 <= j < i + 1 && (#[trigger] self.actions@[j]).package@ == p by {
                assert(names@.contains_key(p) <==> before.contains_key(p) || p
                    == self.actions@[i as int].package@);
            }
            i += 1;
        }
    }
}

/// The packages that the crate of standard messages has.
pub open spec fn standard_names() -> Seq<Seq<char>> {
    seq![
        "builtin_interfaces"@,
        "std_msgs"@,
        "geometry_msgs"@,
        "sensor_msgs"@,
        "nav_msgs"@,
        "action_msgs"@,
        "unique_identifier_msgs"@,
        "service_msgs"@,
        "example_interfaces"@,
        "action_tutorials_interfaces"@,
        "test_msgs"@,
    ]
}

/// The packages that the crate of standard messages has.
pub fn standard_packages() -> (v: Vec<String>)
    ensures
        text::texts(v@) == standard_names(),
{
    let mut v: Vec<String> = Vec::new();
    v.push("builtin_interfaces".to_owned());
    v.push("std_msgs".to_owned());
    v.push("geometry_msgs".to_owned());
    v.push("sensor_msgs".to_owned());
    v.push("nav_msgs".to_owned());
    v.push("action_msgs".to_owned());
    v.push("unique_identifier_msgs".to_owned());
    v.push("service_msgs".to_owned());
    v.push("example_interfaces".to_owned());
    v.push("action_tutorials_interfaces".to_owned());
    v.push("test_msgs".to_owned());
    assert(text::texts(v@) =~= standard_names());
    v
}

/// A step of resolving definitions.
#[derive(Clone, Copy, PartialEq, Eq, Structural, Debug)]
pub enum ResolveStep {
    DependencyMessages,
    DependencyServices,
    DependencyActions,
    UserMessages,
    UserServices,
    UserActions,
}

impl ResolveStep {
    /// What is said of a step that fails.
    pub open spec fn complaint(self) -> Seq<char> {
        match self {
            ResolveStep::DependencyMessages => "Failed to resolve dependency message hashes"@,
            ResolveStep::DependencyServices => "Failed to resolve dependency service hashes"@,
            ResolveStep::DependencyActions => "Failed to resolve dependency action hashes"@,
            ResolveStep::UserMessages => "Failed to resolve message dependencies"@,
            ResolveStep::UserServices => "Failed to resolve service dependencies"@,
            ResolveStep::UserActions => "Failed to resolve action dependencies"@,
        }
    }

    /// Says what failed.
    pub fn context(self) -> (s: String)
        ensures
            s@ == self.complaint(),
    {
        match self {
            ResolveStep::DependencyMessages => "Failed to resolve dependency message hashes".to_owned(),
            ResolveStep::DependencyServices => "Failed to resolve dependency service hashes".to_owned(),
            ResolveStep::DependencyActions => "Failed to resolve dependency action hashes".to_owned(),
            ResolveStep::UserMessages => "Failed to resolve message dependencies".to_owned(),
            ResolveStep::UserServices => "Failed to resolve service dependencies".to_owned(),
            ResolveStep::UserActions => "Failed to resolve action dependencies".to_owned(),
        }
    }
}

/// The steps, in order: what the user's definitions depend on comes first, as
/// far as there is any of it.
pub open spec fn steps_for(deps: Discovered) -> Seq<ResolveStep> {
    let messages = if deps.messages@.len() > 0 {
        seq![ResolveStep::DependencyMessages]
    } else {
        Seq::empty()
    };
    let services = if deps.services@.len() > 0 {
        seq![ResolveStep::DependencyServices]
    } else {
        Seq::empty()
    };
    let actions = if deps.actions@.len() > 0 {
        seq![ResolveStep::DependencyActions]
    } else {
        Seq::empty()
    };
    messages + services + actions + seq![
        ResolveStep::UserMessages,
        ResolveStep::UserServices,
        ResolveStep::UserActions,
    ]
}

/// What is to be resolved, and how.
pub struct ResolutionPlan {
    /// Whether placeholder hashes are in order.
    pub is_humble: bool,
    /// The packages whose types count as resolved though they are not there.
    pub external_packages: NameMap<()>,
    /// The definitions that code is generated for.
    pub user: Discovered,
    /// The messages among those definitions, each by its package and name with
    /// a slash between them.
    pub user_message_names: NameMap<()>,
    /// The definitions that others refer to, and for which no code is generated.
    pub deps: Discovered,
    /// What is resolved, in order.
    pub steps: Vec<ResolveStep>,
}

impl ResolutionPlan {
    /// `self` is the plan of the generator `g` for the definitions that were
    /// found.
    pub open spec fn is_for(
        &self,
        g: MessageGenerator,
        user: Discovered,
        deps: Discovered,
    ) -> bool {
        &&& self.is_humble == g.settings().is_humble
        &&& user.filtered_to(self.user)
        &&& deps.filtered_to(self.deps)
        &&& forall|p: Seq<char>| #[trigger]
            self.user_message_names@.contains_key(p) <==> self.user.has_message(p)
        &&& forall|p: Seq<char>| #[trigger]
            self.external_packages@.contains_key(p) <==> {
                &&& g.settings().external_crate is Some
                &&& standard_names().contains(p)
                &&& !g.settings().local_packages@.contains_key(p)
                &&& !self.deps.has_package(p)
            }
        &&& self.steps@ == steps_for(self.deps)
    }
}

/// The files that are generated.
pub enum Output<'a> {
    /// The definitions for other generators, in this file.
    Json(&'a PathBuf),
    Cdr,
    Protobuf,
}

/// The outputs that the settings of `g` ask for.
pub open spec fn asked_outputs<'a>(g: &'a MessageGenerator, protobuf_built: bool) -> Seq<
    Output<'a>,
> {
    let json = match g.settings().json_out {
        Some(path) => seq![Output::Json(&path)],
        None => Seq::empty(),
    };
    let cdr = if g.settings().generate_cdr {
        seq![Output::Cdr]
    } else {
        Seq::empty()
    };
    let protobuf = if protobuf_built && g.settings().generate_protobuf {
        seq![Output::Protobuf]
    } else {
        Seq::empty()
    };
    json + cdr + protobuf
}

impl MessageGenerator {
    /// Plans the generation of code for the definitions in `user`.
    pub fn generate_from_msg_files(&self, user: Discovered) -> (plan: ResolutionPlan)
        ensures
            exists|deps: Discovered|
                {
                    &&& deps.messages@.len() == 0
                    &&& deps.services@.len() == 0
                    &&& deps.actions@.len() == 0
                    &&& #[trigger] plan.is_for(*self, user, deps)
                },
    {
        let deps = Discovered::none();
        self.generate_from_msg_files_with_deps(user, deps)
    }

    /// Plans the generation of code for the definitions in `user`, which may
    /// refer to those in `deps`.
    pub fn generate_from_msg_files_with_deps(&self, user: Discovered, deps: Discovered) -> (plan:
        ResolutionPlan)
        ensures
            plan.is_for(*self, user, deps),
    {
        let user = user.filtered();
        let deps = deps.filtered();
        let user_message_names = user.message_names();
        let external_packages = self.external_packages(&deps);
        let steps = resolution_steps(&deps);
        ResolutionPlan {
            is_humble: self.config().is_humble,
            external_packages,
            user,
            user_message_names,
            deps,
            steps,
        }
    }

    /// The standard packages that are neither local nor among the dependencies,
    /// where there is a crate that has them.
    fn external_packages(&self, deps: &Discovered) -> (r: NameMap<()>)
        ensures
            forall|p: Seq<char>| #[trigger]
                r@.contains_key(p) <==> {
                    &&& self.settings().external_crate is Some
                    &&& standard_names().contains(p)
                    &&& !self.settings().local_packages@.contains_key(p)
                    &&& !deps.has_package(p)
                },
    {
        let mut r: NameMap<()> = NameMap::new();
        if self.config().external_crate.is_none() {
            return r;
        }
        let mut loaded: NameMap<()> = NameMap::new();
        deps.add_packages(&mut loaded);
        let names = standard_packages();
        let mut i: usize = 0;
        while i < names.len()
            invariant
                i <= names@.len(),
                text::texts(names@) == standard_names(),
                forall|p: Seq<char>| #[trigger] loaded@.contains_key(p) <==> deps.has_package(p),
                forall|p: Seq<char>| #[trigger]
                    r@.contains_key(p) <==> {
                        &&& standard_names().take(i as int).contains(p)
                        &&& !self.settings().local_packages@.contains_key(p)
                        &&& !deps.has_package(p)
                    },
            decreases names@.len() - i,
        {
            let ghost before = r@;
            let ghost so_far = standard_names().take(i as int);
            let ghost name = names@[i as int]@;
            proof {
                assert(text::texts(names@)[i as int] == name);
                assert(standard_names().take(i + 1) =~= so_far.push(name));
                assert forall|p: Seq<char>|
                    so_far.push(name).contains(p) <==> so_far.contains(p) || p == name by {
                    if so_far.contains(p) {
                        let k = so_far.index_of(p);
                        assert(so_far.push(name)[k] == p);
                    }
                    if p == name {
                        assert(so_far.push(name)[i as int] == p);
                    }
                }
            }
            let known = names[i].as_str();
            if !self.config().local_packages.contains(known) && !loaded.contains(known) {
                r.insert(names[i].clone(), ());
            }
            proof {
                let free = !self.settings().local_packages@.contains_key(name)
                    && !deps.has_package(name);
                assert(free ==> r@ == before.insert(name, ()));
                assert(!free ==> r@ == before);
                assert forall|p: Seq<char>| #[trigger]
                    r@.contains_key(p) <==> {
                        &&& standard_names().take(i + 1).contains(p)
                        &&& !self.settings().local_packages@.contains_key(p)
                        &&& !deps.has_package(p)
                    } by {
                    assert(so_far.push(name).contains(p) <==> so_far.contains(p) || p == name);
                    assert(r@.contains_key(p) <==> before.contains_key(p) || (free && p == name));
                }
            }
            i += 1;
        }
        assert(standard_names().take(names@.len() as int) =~= standard_names());
        r
    }

    /// What is generated, in order. `protobuf_built` says whether this build
    /// can generate protobuf definitions.
    pub fn outputs<'a>(&'a self, protobuf_built: bool) -> (v: Vec<Output<'a>>)
        ensures
            v@ == asked_outputs(self, protobuf_built),
    {
        let mut v: Vec<Output<'a>> = Vec::new();
        match &self.config().json_out {
            Some(path) => v.push(Output::Json(path)),
            None => {},
        }
        if self.config().generate_cdr {
            v.push(Output::Cdr);
        }
        if protobuf_built && self.config().generate_protobuf {
            v.push(Output::Protobuf);
        }
        assert(v@ =~= asked_outputs(self, protobuf_built));
        v
    }

    /// The messages for which protobuf definitions are generated.
    pub open spec fn with_protobuf(&self, messages: Seq<ResolvedMessage>) -> Seq<
        ResolvedMessage,
    > {
        messages.filter(
            |m: ResolvedMessage|
                !self.settings().protobuf_excluded_packages@.contains_key(m.parsed.package@),
        )
    }

    /// The messages for which protobuf definitions are generated.
    pub fn protobuf_messages(&self, messages: Vec<ResolvedMessage>) -> (r: Vec<ResolvedMessage>)
        ensures
            r@ == self.with_protobuf(messages@),
    {
        let ghost given = messages@;
        let ghost keep = |m: ResolvedMessage|
            !self.settings().protobuf_excluded_packages@.contains_key(m.parsed.package@);
        let mut kept: Vec<ResolvedMessage> = Vec::new();
        for m in it: messages
            invariant
                it.seq() == given,
                kept@ == given.take(it.index()).filter(keep),
                keep == (|m: ResolvedMessage|
                    !self.settings().protobuf_excluded_packages@.contains_key(m.parsed.package@)),
        {
            proof {
                let n = it.index();
                assert(given.take(n + 1) =~= given.take(n).push(m));
                given.take(n).lemma_filter_push(m, keep);
            }
            if !self.config().protobuf_excluded_packages.contains(m.parsed.package.as_str()) {
                kept.push(m);
            }
        }
        assert(given.take(given.len() as int) =~= given);
        kept
    }
}

/// The steps of resolving, in order.
fn resolution_steps(deps: &Discovered) -> (v: Vec<ResolveStep>)
    ensures
        v@ == steps_for(*deps),
{
    let mut v: Vec<ResolveStep> = Vec::new();
    if deps.messages.len() > 0 {
        v.push(ResolveStep::DependencyMessages);
    }
    if deps.services.len() > 0 {
        v.push(ResolveStep::DependencyServices);
    }
    if deps.actions.len() > 0 {
        v.push(ResolveStep::DependencyActions);
    }
    v.push(ResolveStep::UserMessages);
    v.push(ResolveStep::UserServices);
    v.push(ResolveStep::UserActions);
    v
}

/// The package and the name of a resolved message, with a slash between them.
pub open spec fn resolved_name(m: ResolvedMessage) -> Seq<char> {
    filter::slashed(m.parsed.package@, m.parsed.name@)
}

impl ResolutionPlan {
    /// The resolved messages that code is generated for.
    pub open spec fn selected(&self, all: Seq<ResolvedMessage>) -> Seq<ResolvedMessage> {
        all.filter(|m: ResolvedMessage| self.user_message_names@.contains_key(resolved_name(m)))
    }

    /// The resolved messages that code is generated for: the user's own. What
    /// they depend on is left out, whatever package it is of.
    pub fn select_resolved(&self, all: Vec<ResolvedMessage>) -> (r: Vec<ResolvedMessage>)
        ensures
            r@ == self.selected(all@),
    {
        let ghost given = all@;
        let ghost keep = |m: ResolvedMessage|
            self.user_message_names@.contains_key(resolved_name(m));
        let mut kept: Vec<ResolvedMessage> = Vec::new();
        for m in it: all
            invariant
                it.seq() == given,
                kept@ == given.take(it.index()).filter(keep),
                keep == (|m: ResolvedMessage|
                    self.user_message_names@.contains_key(resolved_name(m))),
        {
            proof {
                let n = it.index();
                assert(given.take(n + 1) =~= given.take(n).push(m));
                given.take(n).lemma_filter_push(m, keep);
            }
            let name = join3(m.parsed.package.as_str(), "/", m.parsed.name.as_str());
            if self.user_message_names.contains(name.as_str()) {
                kept.push(m);
            }
        }
        assert(given.take(given.len() as int) =~= given);
        kept
    }
}

/// What a step resolves.
pub enum StepInput {
    Messages(Vec<ParsedMessage>),
    Services(Vec<ParsedService>),
    Actions(Vec<ParsedAction>),
}

/// What a step gives.
pub enum StepOutput {
    Messages(Vec<ResolvedMessage>),
    Services(Vec<ResolvedService>),
    Actions(Vec<ResolvedAction>),
}

/// The resolved definitions that code is generated for.
pub struct Resolved {
    pub messages: Vec<ResolvedMessage>,
    pub services: Vec<ResolvedService>,
    pub actions: Vec<ResolvedAction>,
}

impl Resolved {
    /// No definitions.
    pub fn none() -> (r: Self)
        ensures
            r.messages@.len() == 0,
            r.services@.len() == 0,
            r.actions@.len() == 0,
    {
        Resolved { messages: Vec::new(), services: Vec::new(), actions: Vec::new() }
    }
}

impl ResolutionPlan {
    /// `input` is what the step resolves.
    pub open spec fn is_input(&self, step: ResolveStep, input: StepInput) -> bool {
        match (step, input) {
            (ResolveStep::DependencyMessages, StepInput::Messages(v)) => v@ == self.deps.messages@,
            (ResolveStep::DependencyServices, StepInput::Services(v)) => v@ == self.deps.services@,
            (ResolveStep::DependencyActions, StepInput::Actions(v)) => v@ == self.deps.actions@,
            (ResolveStep::UserMessages, StepInput::Messages(v)) => v@ == self.user.messages@,
            (ResolveStep::UserServices, StepInput::Services(v)) => v@ == self.user.services@,
            (ResolveStep::UserActions, StepInput::Actions(v)) => v@ == self.user.actions@,
            _ => false,
        }
    }

    /// `after` is this plan without what the step resolves.
    pub open spec fn is_without(&self, step: ResolveStep, after: ResolutionPlan) -> bool {
        &&& after.is_humble == self.is_humble
        &&& after.external_packages == self.external_packages
        &&& after.user_message_names == self.user_message_names
        &&& after.steps == self.steps
        &&& after.deps.messages@ == (if step is DependencyMessages {
            Seq::empty()
        } else {
            self.deps.messages@
        })
        &&& after.deps.services@ == (if step is DependencyServices {
            Seq::empty()
        } else {
            self.deps.services@
        })
        &&& after.deps.actions@ == (if step is DependencyActions {
            Seq::empty()
        } else {
            self.deps.actions@
        })
        &&& after.user.messages@ == (if step is UserMessages {
            Seq::empty()
        } else {
            self.user.messages@
        })
        &&& after.user.services@ == (if step is UserServices {
            Seq::empty()
        } else {
            self.user.services@
        })
        &&& after.user.actions@ == (if step is UserActions {
            Seq::empty()
        } else {
            self.user.actions@
        })
    }

    /// Hands out what a step resolves.
    pub fn take_input(&mut self, step: ResolveStep) -> (input: StepInput)
        ensures
            old(self).is_input(step, input),
            old(self).is_without(step, *final(self)),
    {
        match step {
            ResolveStep::DependencyMessages => {
                let mut v: Vec<ParsedMessage> = Vec::new();
                std::mem::swap(&mut v, &mut self.deps.messages);
                StepInput::Messages(v)
            },
            ResolveStep::DependencyServices => {
                let mut v: Vec<ParsedService> = Vec::new();
                std::mem::swap(&mut v, &mut self.deps.services);
                StepInput::Services(v)
            },
            ResolveStep::DependencyActions => {
                let mut v: Vec<ParsedAction> = Vec::new();
                std::mem::swap(&mut v, &mut self.deps.actions);
                StepInput::Actions(v)
            },
            ResolveStep::UserMessages => {
                let mut v: Vec<ParsedMessage> = Vec::new();
                std::mem::swap(&mut v, &mut self.user.messages);
                StepInput::Messages(v)
            },
            ResolveStep::UserServices => {
                let mut v: Vec<ParsedService> = Vec::new();
                std::mem::swap(&mut v, &mut self.user.services);
                StepInput::Services(v)
            },
            ResolveStep::UserActions => {
                let mut v: Vec<ParsedAction> = Vec::new();
                std::mem::swap(&mut v, &mut self.user.actions);
                StepInput::Actions(v)
            },
        }
    }

    /// `after` is `before` with what the step gave, as far as code is generated
    /// for it: of the messages the user's own, all services and actions of the
    /// user's steps, and nothing of what they depend on.
    pub open spec fn is_kept(
        &self,
        step: ResolveStep,
        output: StepOutput,
        before: Resolved,
        after: Resolved,
    ) -> bool {
        &&& after.messages@ == (match (step, output) {
            (ResolveStep::UserMessages, StepOutput::Messages(v)) => self.selected(v@),
            _ => before.messages@,
        })
        &&& after.services@ == (match (step, output) {
            (ResolveStep::UserServices, StepOutput::Services(v)) => v@,
            _ => before.services@,
        })
        &&& after.actions@ == (match (step, output) {
            (ResolveStep::UserActions, StepOutput::Actions(v)) => v@,
            _ => before.actions@,
        })
    }

    /// Keeps what a step gave, as far as code is generated for it.
    pub fn keep_output(&self, step: ResolveStep, output: StepOutput, resolved: &mut Resolved)
        ensures
            self.is_kept(step, output, *old(resolved), *final(resolved)),
    {
        match (step, output) {
            (ResolveStep::UserMessages, StepOutput::Messages(v)) => {
                resolved.messages = self.select_resolved(v);
            },
            (ResolveStep::UserServices, StepOutput::Services(v)) => {
                resolved.services = v;
            },
            (ResolveStep::UserActions, StepOutput::Actions(v)) => {
                resolved.actions = v;
            },
            _ => {},
        }
    }
}

} // verus!
