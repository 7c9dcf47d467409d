//! Which packages are read.

use crate::codegen::config::{GeneratorConfig, MessageGenerator};
use crate::names::NameMap;
use crate::text;
use crate::text::{split_text, trim_text};
use std::path::PathBuf;
use vstd::prelude::*;
use vstd::string::*;

verus! {

/// What was found at a path.
#[derive(Clone, Copy, PartialEq, Eq, Structural, Debug)]
pub struct Probe {
    /// There is something.
    pub exists: bool,
    /// It is a directory.
    pub is_dir: bool,
    /// It has `msg` in it.
    pub msg: bool,
    /// It has `srv` in it.
    pub srv: bool,
    /// It has `action` in it.
    pub action: bool,
}

impl Probe {
    /// There are interface definitions.
    pub open spec fn defines(self) -> bool {
        self.msg || self.srv || self.action
    }

    /// Whether there are interface definitions.
    pub fn has_messages(self) -> (r: bool)
        ensures
            r == self.defines(),
            self.msg ==> r,
            self.srv ==> r,
            self.action ==> r,
            r ==> self.msg || self.srv || self.action,
    {
        self.msg || self.srv || self.action
    }
}

/// What becomes of an entry of the message path.
#[derive(Clone, Copy, PartialEq, Eq, Structural, Debug)]
pub enum EntryVerdict {
    /// There is nothing at the path.
    Missing,
    /// There are no interface definitions at the path.
    NoInterfaces,
    /// The path is a package.
    Package,
}

/// What becomes of an entry at which `probe` was found.
pub open spec fn entry_verdict(probe: Probe) -> EntryVerdict {
    if !probe.exists {
        EntryVerdict::Missing
    } else if probe.defines() {
        EntryVerdict::Package
    } else {
        EntryVerdict::NoInterfaces
    }
}

/// Decides what becomes of an entry of the message path.
pub fn judge_entry(probe: Probe) -> (v: EntryVerdict)
    ensures
        v == entry_verdict(probe),
{
    if !probe.exists {
        EntryVerdict::Missing
    } else if probe.has_messages() {
        EntryVerdict::Package
    } else {
        EntryVerdict::NoInterfaces
    }
}

/// The components of the directory with the bundled packages.
pub open spec fn bundled_place(manifest_dir: Seq<char>, is_humble: bool) -> Seq<Seq<char>> {
    seq![
        manifest_dir,
        "assets"@,
        if is_humble {
            "humble"@
        } else {
            "jazzy"@
        },
    ]
}

/// The directory with the bundled packages, by its path components.
pub fn bundled_assets_dir(manifest_dir: &str, is_humble: bool) -> (v: Vec<String>)
    ensures
        text::texts(v@) == bundled_place(manifest_dir@, is_humble),
{
    let mut v: Vec<String> = Vec::new();
    v.push(manifest_dir.to_owned());
    v.push("assets".to_owned());
    if is_humble {
        v.push("humble".to_owned());
    } else {
        v.push("jazzy".to_owned());
    }
    assert(text::texts(v@) =~= bundled_place(manifest_dir@, is_humble));
    v
}

/// The entries of a message path: what is between colons, without the space
/// around it. Empty entries do not count.
pub open spec fn entries_of(msg_path: Seq<char>) -> Seq<Seq<char>> {
    trimmed_all(text::pieces(msg_path, ':')).filter(|p: Seq<char>| p.len() > 0)
}

/// Texts without the space around them.
pub open spec fn trimmed_all(parts: Seq<Seq<char>>) -> Seq<Seq<char>> {
    Seq::new(parts.len(), |i: int| text::trimmed(parts[i]))
}

/// The entries of a message path, in order.
pub fn msg_path_entries(msg_path: &str) -> (v: Vec<String>)
    ensures
        text::texts(v@) == entries_of(msg_path@),
{
    let parts = split_text(msg_path, ':');
    let ghost given = trimmed_all(text::texts(parts@));
    let ghost keep = |p: Seq<char>| p.len() > 0;
    let mut v: Vec<String> = Vec::new();
    let mut i: usize = 0;
    while i < parts.len()
        invariant
            i <= parts@.len(),
            given == trimmed_all(text::texts(parts@)),
            keep == (|p: Seq<char>| p.len() > 0),
            text::texts(v@) =~= given.take(i as int).filter(keep),
        decreases parts@.len() - i,
    {
        let part = trim_text(parts[i].as_str());
        proof {
            assert(text::texts(parts@)[i as int] == parts@[i as int]@);
            assert(given[i as int] == part@);
            assert(given.take(i + 1) =~= given.take(i as int).push(part@));
            given.take(i as int).lemma_filter_push(part@, keep);
        }
        if !part.as_str().is_empty() {
            let ghost vs = text::texts(v@);
            v.push(part);
            assert(text::texts(v@) =~= vs.push(part@));
        }
        i += 1;
    }
    assert(given.take(given.len() as int) =~= given);
    v
}

/// The paths whose probes are kept, in order.
pub open spec fn chosen<P>(
    paths: Seq<P>,
    probes: Seq<Probe>,
    keep: spec_fn(Probe) -> bool,
) -> Seq<P>
    decreases paths.len(),
{
    if paths.len() == 0 {
        Seq::empty()
    } else {
        let before = chosen(paths.drop_last(), probes, keep);
        if keep(probes[paths.len() - 1]) {
            before.push(paths.last())
        } else {
            before
        }
    }
}

/// The packages among the entries of a message path.
pub open spec fn packages_among(entries: Seq<Seq<char>>, probes: Seq<Probe>) -> Seq<Seq<char>> {
    chosen(entries, probes, |p: Probe| entry_verdict(p) is Package)
}

/// The packages among the paths of the bundled assets.
pub open spec fn bundled_among<P>(paths: Seq<P>, probes: Seq<Probe>) -> Seq<P> {
    chosen(paths, probes, |p: Probe| p.is_dir && p.defines())
}

/// The bundled packages, if there are assets.
pub open spec fn bundled_found<P>(assets_exist: bool, paths: Seq<P>, probes: Seq<Probe>) -> Seq<P> {
    if assets_exist {
        bundled_among(paths, probes)
    } else {
        Seq::empty()
    }
}

/// Why there are no user packages.
#[derive(Clone, Copy, PartialEq, Eq, Structural, Debug)]
pub enum DiscoverError {
    /// There is no message path.
    NotSet,
    /// No entry of the message path is a package.
    NoPackages,
}

impl DiscoverError {
    /// What is said of the failure.
    pub open spec fn complaint(self) -> Seq<char> {
        match self {
            DiscoverError::NotSet => "HIROZ_MSG_PATH environment variable not set"@,
            DiscoverError::NoPackages => "No valid message packages found in HIROZ_MSG_PATH"@,
        }
    }

    /// Says what failed.
    pub fn describe(self) -> (s: String)
        ensures
            s@ == self.complaint(),
    {
        match self {
            DiscoverError::NotSet => "HIROZ_MSG_PATH environment variable not set".to_owned(),
            DiscoverError::NoPackages => "No valid message packages found in HIROZ_MSG_PATH".to_owned(),
        }
    }
}

/// `r` are the packages that a message path names, or why there are none.
pub open spec fn is_discovery(
    msg_path: Option<Seq<char>>,
    probes: Seq<Probe>,
    r: Result<Vec<String>, DiscoverError>,
) -> bool {
    match msg_path {
        None => r == Err::<Vec<String>, DiscoverError>(DiscoverError::NotSet),
        Some(p) => {
            let packages = packages_among(entries_of(p), probes);
            match r {
                Ok(v) => text::texts(v@) == packages && packages.len() > 0,
                Err(e) => e is NoPackages && packages.len() == 0,
            }
        },
    }
}

/// The packages that a message path names. `probes` holds what was found at
/// each of its entries.
pub fn discover_user_packages(msg_path: Option<&str>, probes: &Vec<Probe>) -> (r: Result<
    Vec<String>,
    DiscoverError,
>)
    requires
        msg_path matches Some(p) ==> probes@.len() == entries_of(p@).len(),
    ensures
        match msg_path {
            None => is_discovery(None, probes@, r),
            Some(p) => is_discovery(Some(p@), probes@, r),
        },
{
    let entries = match msg_path {
        None => {
            return Err(DiscoverError::NotSet);
        },
        Some(p) => msg_path_entries(p),
    };
    let ghost given = text::texts(entries@);
    let ghost keep = |p: Probe| entry_verdict(p) is Package;
    let mut v: Vec<String> = Vec::new();
    let mut i: usize = 0;
    assert(given.take(0) =~= Seq::empty());
    assert(text::texts(v@) =~= Seq::empty());
    while i < entries.len()
        invariant
            i <= entries@.len(),
            entries@.len() == probes@.len(),
            given == text::texts(entries@),
            keep == (|p: Probe| entry_verdict(p) is Package),
            text::texts(v@) == chosen(given.take(i as int), probes@, keep),
        decreases entries@.len() - i,
    {
        assert(given.take(i + 1).drop_last() =~= given.take(i as int));
        assert(given[i as int] == entries@[i as int]@);
        if judge_entry(probes[i]) == EntryVerdict::Package {
            let ghost vs = text::texts(v@);
            v.push(entries[i].clone());
            assert(text::texts(v@) =~= vs.push(entries@[i as int]@));
        }
        i += 1;
    }
    assert(given.take(i as int) =~= given);
    assert(text::texts(v@).len() == v@.len());
    if v.len() == 0 {
        Err(DiscoverError::NoPackages)
    } else {
        Ok(v)
    }
}

/// The packages among the directories of the bundled assets, if there are
/// assets. `probes` holds what was found at each path.
pub fn discover_bundled_packages(
    assets_exist: bool,
    paths: Vec<PathBuf>,
    probes: &Vec<Probe>,
) -> (v: Vec<PathBuf>)
    requires
        paths@.len() == probes@.len(),
    ensures
        v@ == bundled_found(assets_exist, paths@, probes@),
{
    let ghost given = paths@;
    let ghost keep = |p: Probe| p.is_dir && p.defines();
    let mut v: Vec<PathBuf> = Vec::new();
    if !assets_exist {
        return v;
    }
    let n: usize = probes.len();
    let mut i: usize = 0;
    assert(given.take(0) =~= Seq::empty());
    for path in it: paths
        invariant
            it.seq() == given,
            i == it.index(),
            given.len() == n == probes@.len(),
            keep == (|p: Probe| p.is_dir && p.defines()),
            v@ == chosen(given.take(i as int), probes@, keep),
    {
        assert(given.take(i + 1).drop_last() =~= given.take(i as int));
        assert(given.take(i + 1).last() == path);
        if probes[i].is_dir && probes[i].has_messages() {
            v.push(path);
        }
        i += 1;
    }
    assert(given.take(i as int) =~= given);
    v
}

/// The packages that have a name, by their names.
pub open spec fn has_name(names: Seq<Option<String>>, p: Seq<char>) -> bool {
    exists|i: int| 0 <= i < names.len() && (#[trigger] names[i] matches Some(n) && n@ == p)
}

/// The names of packages, as far as they have any.
pub fn local_names(names: &Vec<Option<String>>) -> (local: NameMap<()>)
    ensures
        forall|p: Seq<char>| #[trigger] local@.contains_key(p) <==> has_name(names@, p),
{
    let mut local: NameMap<()> = NameMap::new();
    let mut i: usize = 0;
    while i < names.len()
        invariant
            i <= names@.len(),
            forall|p: Seq<char>| #[trigger]
                local@.contains_key(p) <==> has_name(names@.take(i as int), p),
        decreases names@.len() - i,
    {
        let ghost before = local@;
        match &names[i] {
            Some(n) => {
                local.insert(n.clone(), ());
            },
            None => {},
        }
        proof {
            let taken = names@.take(i as int);
            let more = names@.take(i + 1);
            assert forall|p: Seq<char>| #[trigger] local@.contains_key(p) <==> has_name(more, p) by {
                assert(more[i as int] == names@[i as int]);
                assert(forall|j: int| 0 <= j < i ==> #[trigger] more[j] == taken[j]);
                assert(before.contains_key(p) <==> has_name(taken, p));
                if has_name(taken, p) {
                    let j = choose|j: int|
                        0 <= j < taken.len() && (#[trigger] taken[j] matches Some(n) && n@ == p);
                    assert(more[j] == taken[j]);
                }
                if has_name(more, p) {
                    let j = choose|j: int|
                        0 <= j < more.len() && (#[trigger] more[j] matches Some(n) && n@ == p);
                    if j < i {
                        assert(taken[j] == more[j]);
                    }
                }
            }
        }
        i += 1;
    }
    assert(names@.take(i as int) =~= names@);
    local
}

/// The bundled packages that are read: those without a name, and those whose
/// name no user package has.
pub open spec fn beside<P>(
    paths: Seq<P>,
    names: Seq<Option<String>>,
    local: Map<Seq<char>, ()>,
) -> Seq<P>
    decreases paths.len(),
{
    if paths.len() == 0 {
        Seq::empty()
    } else {
        let before = beside(paths.drop_last(), names, local);
        if names[paths.len() - 1] matches Some(n) && local.contains_key(n@) {
            before
        } else {
            before.push(paths.last())
        }
    }
}

/// Leaves out the bundled packages whose name a user package has.
pub fn beside_local(paths: Vec<PathBuf>, names: &Vec<Option<String>>, local: &NameMap<()>) -> (v:
    Vec<PathBuf>)
    requires
        paths@.len() == names@.len(),
    ensures
        v@ == beside(paths@, names@, local@),
{
    let ghost given = paths@;
    let mut v: Vec<PathBuf> = Vec::new();
    let n: usize = names.len();
    let mut i: usize = 0;
    assert(given.take(0) =~= Seq::empty());
    for path in it: paths
        invariant
            it.seq() == given,
            i == it.index(),
            given.len() == n == names@.len(),
            v@ == beside(given.take(i as int), names@, local@),
    {
        assert(given.take(i + 1).drop_last() =~= given.take(i as int));
        assert(given.take(i + 1).last() == path);
        let taken = match &names[i] {
            Some(n) => local.contains(n.as_str()),
            None => false,
        };
        if !taken {
            v.push(path);
        }
        i += 1;
    }
    assert(given.take(i as int) =~= given);
    v
}

/// What is generated for a user's packages, and what they may refer to.
pub struct UserGeneration {
    pub generator: MessageGenerator,
    /// The bundled packages that are read beside the user's.
    pub dep_packages: Vec<PathBuf>,
}

impl UserGeneration {
    /// This is how code is generated for a user's packages.
    pub open spec fn is_for(
        &self,
        output_dir: PathBuf,
        is_humble: bool,
        names: Seq<Option<String>>,
        bundled: Seq<PathBuf>,
        bundled_names: Seq<Option<String>>,
    ) -> bool {
        let c = self.generator.settings();
        &&& c.generate_cdr
        &&& !c.generate_protobuf
        &&& c.generate_type_info
        &&& c.is_humble == is_humble
        &&& c.output_dir == output_dir
        &&& c.external_crate matches Some(e) && e@ == "hiroz_msgs"@
        &&& forall|p: Seq<char>| #[trigger]
            c.local_packages@.contains_key(p) <==> has_name(names, p)
        &&& c.json_out is None
        &&& c.protobuf_excluded_packages@ == Map::<Seq<char>, ()>::empty()
        &&& self.dep_packages@ == beside(bundled, bundled_names, c.local_packages@)
    }
}

/// Settles how code is generated for a user's packages. `names` holds the names
/// of the user's packages, `bundled` the paths of the bundled packages and
/// `bundled_names` their names.
pub fn generate_user_messages(
    output_dir: PathBuf,
    is_humble: bool,
    names: &Vec<Option<String>>,
    bundled: Vec<PathBuf>,
    bundled_names: &Vec<Option<String>>,
) -> (r: UserGeneration)
    requires
        bundled@.len() == bundled_names@.len(),
    ensures
        r.is_for(output_dir, is_humble, names@, bundled@, bundled_names@),
{
    let local_packages = local_names(names);
    let dep_packages = beside_local(bundled, bundled_names, &local_packages);
    let config = GeneratorConfig {
        generate_cdr: true,
        generate_protobuf: false,
        generate_type_info: true,
        is_humble,
        output_dir,
        external_crate: Some("hiroz_msgs".to_owned()),
        local_packages,
        json_out: None,
        protobuf_excluded_packages: NameMap::new(),
    };
    UserGeneration { generator: MessageGenerator::new(config), dep_packages }
}

} // verus!
