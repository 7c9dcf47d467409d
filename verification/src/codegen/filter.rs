//! Which definitions are left out.

use crate::codegen::config::MessageGenerator;
use crate::codegen::types::{Field, ParsedMessage, ParsedService};
use crate::text;
use crate::text::{contains_part, ends_with, join2, join3, starts_with};
use vstd::prelude::*;
use vstd::string::*;

verus! {

/// What becomes of a message definition.
#[derive(Clone, Copy, PartialEq, Eq, Structural, Debug)]
pub enum Verdict {
    /// It is kept.
    Keep,
    /// It is of `actionlib_msgs`, which is out of use.
    Deprecated,
    /// It repeats what is made from a service definition.
    ServiceFile,
    /// It lies in a directory of service definitions.
    ServiceDirectory,
    /// It has a field with wide characters.
    WideString,
}

/// The package and the name of a definition, with a slash between them.
pub open spec fn slashed(package: Seq<char>, name: Seq<char>) -> Seq<char> {
    package + "/"@ + name
}

/// A definition of `actionlib_msgs`.
pub open spec fn deprecated(package: Seq<char>, name: Seq<char>) -> bool {
    text::begins_with(slashed(package, name), "actionlib_msgs/"@)
}

/// A field with wide characters.
pub open spec fn wide(field: Field) -> bool {
    text::occurs_in(field.field_type.base_type@, "wstring"@)
}

/// What becomes of `msg`.
pub open spec fn verdict_of(msg: ParsedMessage) -> Verdict {
    if deprecated(msg.package@, msg.name@) {
        Verdict::Deprecated
    } else if text::finishes_with(msg.name@, "_Request"@) || text::finishes_with(
        msg.name@,
        "_Response"@,
    ) {
        Verdict::ServiceFile
    } else if text::occurs_in(msg.path@, "/srv/"@) {
        Verdict::ServiceDirectory
    } else if exists|i: int| 0 <= i < msg.fields@.len() && wide(#[trigger] msg.fields@[i]) {
        Verdict::WideString
    } else {
        Verdict::Keep
    }
}

fn has_wide_field(fields: &Vec<Field>) -> (r: bool)
    ensures
        r == exists|i: int| 0 <= i < fields@.len() && wide(#[trigger] fields@[i]),
{
    let mut i: usize = 0;
    while i < fields.len()
        invariant
            i <= fields@.len(),
            forall|j: int| 0 <= j < i ==> !wide(#[trigger] fields@[j]),
        decreases fields@.len() - i,
    {
        if contains_part(fields[i].field_type.base_type.as_str(), "wstring") {
            assert(wide(fields@[i as int]));
            return true;
        }
        i += 1;
    }
    false
}

/// Decides what becomes of a message definition.
pub fn verdict(msg: &ParsedMessage) -> (v: Verdict)
    ensures
        v == verdict_of(*msg),
{
    let full_name = join3(msg.package.as_str(), "/", msg.name.as_str());
    if starts_with(full_name.as_str(), "actionlib_msgs/") {
        Verdict::Deprecated
    } else if ends_with(msg.name.as_str(), "_Request") || ends_with(msg.name.as_str(), "_Response") {
        Verdict::ServiceFile
    } else if contains_part(msg.path.as_str(), "/srv/") {
        Verdict::ServiceDirectory
    } else if has_wide_field(&msg.fields) {
        Verdict::WideString
    } else {
        Verdict::Keep
    }
}

/// What the build is told of a message that is left out.
pub open spec fn notice_of(msg: ParsedMessage) -> Option<Seq<char>> {
    let full_name = slashed(msg.package@, msg.name@);
    match verdict_of(msg) {
        Verdict::Keep => None,
        Verdict::Deprecated => Some(
            "cargo:info=Filtered deprecated actionlib_msgs: "@ + full_name,
        ),
        Verdict::ServiceFile => Some("cargo:info=Filtered service msg file: "@ + full_name),
        Verdict::ServiceDirectory => Some(
            "cargo:info=Filtered srv directory message: "@ + full_name,
        ),
        Verdict::WideString => Some(
            "cargo:warning=Skipping message "@ + full_name
                + " due to wstring field (unsupported)"@,
        ),
    }
}

/// The notice for a message that is left out.
pub fn filter_notice(msg: &ParsedMessage) -> (r: Option<String>)
    ensures
        match r {
            Some(s) => notice_of(*msg) == Some(s@),
            None => notice_of(*msg) is None,
        },
{
    let full_name = join3(msg.package.as_str(), "/", msg.name.as_str());
    match verdict(msg) {
        Verdict::Keep => None,
        Verdict::Deprecated => Some(
            join2("cargo:info=Filtered deprecated actionlib_msgs: ", full_name.as_str()),
        ),
        Verdict::ServiceFile => Some(
            join2("cargo:info=Filtered service msg file: ", full_name.as_str()),
        ),
        Verdict::ServiceDirectory => Some(
            join2("cargo:info=Filtered srv directory message: ", full_name.as_str()),
        ),
        Verdict::WideString => Some(
            join3(
                "cargo:warning=Skipping message ",
                full_name.as_str(),
                " due to wstring field (unsupported)",
            ),
        ),
    }
}

/// The messages that are kept.
pub open spec fn kept_messages(messages: Seq<ParsedMessage>) -> Seq<ParsedMessage> {
    messages.filter(|m: ParsedMessage| verdict_of(m) is Keep)
}

/// The services that are kept.
pub open spec fn kept_services(services: Seq<ParsedService>) -> Seq<ParsedService> {
    services.filter(|s: ParsedService| !deprecated(s.package@, s.name@))
}

impl MessageGenerator {
    /// Leaves out the messages that no code can be generated for, or for which
    /// it comes from elsewhere.
    pub fn filter_messages(messages: Vec<ParsedMessage>) -> (r: Vec<ParsedMessage>)
        ensures
            r@ == kept_messages(messages@),
    {
        let ghost keep = |m: ParsedMessage| verdict_of(m) is Keep;
        let ghost given = messages@;
        let mut kept: Vec<ParsedMessage> = Vec::new();
        for m in it: messages
            invariant
                it.seq() == given,
                kept@ == given.take(it.index()).filter(keep),
                keep == (|m: ParsedMessage| verdict_of(m) is Keep),
        {
            proof {
                let n = it.index();
                assert(given.take(n + 1) =~= given.take(n).push(m));
                given.take(n).lemma_filter_push(m, keep);
            }
            if verdict(&m) == Verdict::Keep {
                kept.push(m);
            }
        }
        assert(given.take(given.len() as int) =~= given);
        kept
    }

    /// Leaves out the services of `actionlib_msgs`.
    pub fn filter_services(services: Vec<ParsedService>) -> (r: Vec<ParsedService>)
        ensures
            r@ == kept_services(services@),
    {
        let ghost keep = |s: ParsedService| !deprecated(s.package@, s.name@);
        let ghost given = services@;
        let mut kept: Vec<ParsedService> = Vec::new();
        for s in it: services
            invariant
                it.seq() == given,
                kept@ == given.take(it.index()).filter(keep),
                keep == (|s: ParsedService| !deprecated(s.package@, s.name@)),
        {
            proof {
                let n = it.index();
                assert(given.take(n + 1) =~= given.take(n).push(s));
                given.take(n).lemma_filter_push(s, keep);
            }
            let full_name = join3(s.package.as_str(), "/", s.name.as_str());
            if !starts_with(full_name.as_str(), "actionlib_msgs/") {
                kept.push(s);
            }
        }
        assert(given.take(given.len() as int) =~= given);
        kept
    }
}

} // verus!
