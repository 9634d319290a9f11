//! Decisions that a project makes about the names and listings of its
//! resources and about the version of its project file.
use vstd::prelude::*;
use crate::directory_manager::StartupError;
use crate::folders::{FolderGraphError, Vfs, VfsView};
use crate::names::{name_is_valid, new_name_validator, valid_resource_name};
use crate::resource_names::{
    ResourceDescriptor, ResourceDescriptorView, ResourceNamesView, YypResource, YypResourceView, insert_name,
};
use crate::resources::{Resource, parse_subpath_spec};
use semver::{Version, VersionReq};

verus! {

/// Why a resource could not be added, removed, renamed or moved.
#[derive(Debug, PartialEq, Eq)]
pub enum ResourceManipulationError {
    /// The folder tree refused the change.
    FolderGraphError(FolderGraphError),
    /// The name is taken by a resource of the given kind.
    NameCollision(Resource),
    /// The name is not a valid resource name.
    BadName,
    /// No such resource was found.
    BadGet,
    /// The project is out of step with itself.
    InternalError,
    /// Resources of that kind cannot be changed yet.
    ResourceCannotBeManipulated,
}

/// Whether `name` can be given to a new resource: it must not be taken, and
/// it must be a valid resource name. A taken name is reported with the kind
/// of the resource that has it.
pub fn can_use_name(vfs: &Vfs, name: &str) -> (r: Result<(), ResourceManipulationError>)
    ensures
        vfs@.names.names.contains_key(name@) ==> r == Err::<(), ResourceManipulationError>(
            ResourceManipulationError::NameCollision(vfs@.names.names[name@].resource),
        ),
        !vfs@.names.names.contains_key(name@) && !valid_resource_name(name@) ==> r == Err::<
            (),
            ResourceManipulationError,
        >(ResourceManipulationError::BadName),
        !vfs@.names.names.contains_key(name@) && valid_resource_name(name@) ==> r is Ok,
{
    match vfs.resource_names().get(name) {
        Some(d) => {
            return Err(ResourceManipulationError::NameCollision(d.resource));
        },
        None => {},
    }
    let validator = new_name_validator();
    if !name_is_valid(&validator, name) {
        return Err(ResourceManipulationError::BadName);
    }
    Ok(())
}

/// The part of `s` before its first `/` (all of it, where it has none).
pub open spec fn first_segment(s: Seq<char>) -> Seq<char>
    decreases s.len(),
{
    if s.len() == 0 || s[0] == '/' {
        Seq::empty()
    } else {
        seq![s[0]] + first_segment(s.skip(1))
    }
}

/// The kind of resource that a listing's path names by its first part.
pub open spec fn listing_kind(path: Seq<char>) -> Option<Resource> {
    parse_subpath_spec(first_segment(path))
}

/// The part of `s` before its first `/`.
fn first_part(s: &str) -> (r: &str)
    ensures
        r@ == first_segment(s@),
{
    let n = s.unicode_len();
    let mut i: usize = 0;
    proof {
        assert(s@.skip(0) =~= s@);
        assert(s@.take(0) + first_segment(s@) =~= first_segment(s@));
    }
    while i < n && s.get_char(i) != '/'
        invariant
            n == s@.len(),
            i <= n,
            s@.take(i as int) + first_segment(s@.skip(i as int)) == first_segment(s@),
        decreases n - i,
    {
        proof {
            let rest = s@.skip(i as int);
            assert(rest[0] == s@[i as int]);
            assert(rest.skip(1) =~= s@.skip(i + 1));
            assert(s@.take(i + 1) =~= s@.take(i as int) + seq![s@[i as int]]);
            assert(s@.take(i + 1) + first_segment(s@.skip(i + 1)) =~= s@.take(i as int) + first_segment(rest));
        }
        i = i + 1;
    }
    proof {
        let rest = s@.skip(i as int);
        if i < n {
            assert(rest[0] == '/');
        }
        assert(first_segment(rest) =~= Seq::<char>::empty());
        assert(s@.take(i as int) + Seq::<char>::empty() =~= s@.take(i as int));
        assert(s@.subrange(0, i as int) =~= s@.take(i as int));
    }
    s.substring_char(0, i)
}

/// The kind of resource that a resource listing of the project file belongs
/// to, named by the first part of its path. A path whose first part names no
/// kind is refused.
pub fn resource_of_listing(path: &str) -> (r: Result<Resource, StartupError>)
    ensures
        match listing_kind(path@) {
            Some(k) => r == Ok::<Resource, StartupError>(k),
            None => r matches Err(StartupError::BadResourceListing(p)) && p@ == path@,
        },
{
    let subpath = first_part(path);
    match Resource::parse_subpath(subpath) {
        Some(k) => Ok(k),
        None => Err(StartupError::BadResourceListing(path.to_string())),
    }
}

/// The registry after the listings `list` are recorded in order, each under
/// its name, with its kind, its order and the folder at `location`.
pub open spec fn names_after(v: ResourceNamesView, list: Seq<YypResourceView>, location: Seq<char>) -> ResourceNamesView
    decreases list.len(),
{
    if list.len() == 0 {
        v
    } else {
        let e = list.last();
        insert_name(
            names_after(v, list.drop_last(), location),
            e.id.name,
            ResourceDescriptorView {
                resource: listing_kind(e.id.path)->Some_0,
                order: e.order,
                parent_location: location,
            },
        )
    }
}

/// The position of the first listing whose path names no kind.
pub open spec fn first_bad_listing(list: Seq<YypResourceView>) -> Option<int>
    decreases list.len(),
{
    if list.len() == 0 {
        None
    } else {
        match first_bad_listing(list.drop_last()) {
            Some(i) => Some(i),
            None => if listing_kind(list.last().id.path) is None {
                Some(list.len() - 1)
            } else {
                None
            },
        }
    }
}

proof fn lemma_first_bad_listing(list: Seq<YypResourceView>)
    ensures
        match first_bad_listing(list) {
            Some(i) => 0 <= i < list.len() && listing_kind(list[i].id.path) is None && forall|j: int|
                0 <= j < i ==> listing_kind(list[j].id.path) is Some,
            None => forall|j: int| 0 <= j < list.len() ==> listing_kind(list[j].id.path) is Some,
        },
    decreases list.len(),
{
    if list.len() > 0 {
        lemma_first_bad_listing(list.drop_last());
        assert forall|j: int| 0 <= j < list.len() - 1 implies list.drop_last()[j] == list[j] by {}
    }
}

/// Records the names of the listed resources without loading them: each
/// listing, in order, is recorded under its name with the kind its path
/// names, its order, and the folder at `root_location`. Stops at the first
/// listing whose path names no kind, which is refused; those before it stay
/// recorded.
pub fn quick_name(vfs: &mut Vfs, resources: &Vec<YypResource>, root_location: &str) -> (r: Result<(), StartupError>)
    ensures
        ({
            let list = resources@.map_values(|e: YypResource| e@);
            match first_bad_listing(list) {
                None => r is Ok && final(vfs)@ == (VfsView {
                    names: names_after(old(vfs)@.names, list, root_location@),
                    ..old(vfs)@
                }),
                Some(k) => r matches Err(StartupError::BadResourceListing(p)) && p@ == list[k].id.path
                    && final(vfs)@ == (VfsView {
                    names: names_after(old(vfs)@.names, list.take(k), root_location@),
                    ..old(vfs)@
                }),
            }
        }),
{
    let ghost list = resources@.map_values(|e: YypResource| e@);
    proof {
        lemma_first_bad_listing(list);
        assert(list.take(0) =~= Seq::<YypResourceView>::empty());
    }
    let mut i: usize = 0;
    while i < resources.len()
        invariant
            i <= resources@.len(),
            list == resources@.map_values(|e: YypResource| e@),
            forall|j: int| 0 <= j < i ==> listing_kind(#[trigger] list[j].id.path) is Some,
            match first_bad_listing(list) {
                Some(k) => 0 <= k < list.len() && listing_kind(list[k].id.path) is None && forall|j: int|
                    0 <= j < k ==> listing_kind(list[j].id.path) is Some,
                None => forall|j: int| 0 <= j < list.len() ==> listing_kind(list[j].id.path) is Some,
            },
            vfs@ == (VfsView { names: names_after(old(vfs)@.names, list.take(i as int), root_location@), ..old(vfs)@ }),
        decreases resources@.len() - i,
    {
        let entry = &resources[i];
        let kind = match resource_of_listing(entry.id.path.as_str()) {
            Ok(k) => k,
            Err(e) => {
                proof {
                    assert(listing_kind(list[i as int].id.path) is None);
                    if let Some(k) = first_bad_listing(list) {
                        assert(k >= i);
                        assert(k == i);
                    }
                }
                return Err(e);
            },
        };
        let ghost before = vfs@;
        vfs.record_resource_name(
            entry.id.name.clone(),
            ResourceDescriptor::new(kind, entry.order, root_location.to_string()),
        );
        proof {
            let t = list.take(i + 1);
            assert(t.drop_last() =~= list.take(i as int));
            assert(t.last() == list[i as int]);
            assert(vfs@.names == names_after(old(vfs)@.names, t, root_location@));
        }
        i = i + 1;
    }
    proof {
        assert(list.take(i as int) =~= list);
    }
    Ok(())
}


/// A version of a released tool (`semver::Version`).
#[verifier::external_type_specification]
#[verifier::external_body]
pub struct ExVersion(Version);

/// A requirement on versions (`semver::VersionReq`).
#[verifier::external_type_specification]
#[verifier::external_body]
pub struct ExVersionReq(VersionReq);

/// Whether `semver::Version::parse` accepts `text`.
pub uninterp spec fn semver_version_parses(text: Seq<char>) -> bool;

/// Whether `semver::VersionReq::parse` accepts `text`.
pub uninterp spec fn semver_req_parses(text: Seq<char>) -> bool;

/// A numeral of at most 19 decimal digits, without a leading zero.
pub open spec fn is_numeral(s: Seq<char>) -> bool {
    &&& 1 <= s.len() <= 19
    &&& forall|i: int| 0 <= i < s.len() ==> '0' <= #[trigger] s[i] <= '9'
    &&& (s.len() == 1 || s[0] != '0')
}

/// A major and a minor numeral separated by a dot, such as `0.23`.
pub open spec fn is_major_minor(s: Seq<char>) -> bool {
    exists|k: int| 0 < k < s.len() && s[k] == '.' && is_numeral(s.take(k)) && is_numeral(s.skip(k + 1))
}

/// `yy_typings::Yyp::DEFAULT_VERSION`: the IDE version that the typings were
/// written for, `6.0.23`.
#[verifier::external_body]
fn yyp_default_version() -> (r: &'static str)
    ensures
        r@ == "6.0.23"@,
{
    yy_typings::Yyp::DEFAULT_VERSION
}

/// A version read from its text: the text, and the version that semver read
/// from it. Only [`parse_version`] makes one, so the version is always the
/// one that its text gives.
pub struct ParsedVersion {
    text: String,
    version: Version,
}

impl View for ParsedVersion {
    type V = Seq<char>;

    closed spec fn view(&self) -> Seq<char> {
        self.text@
    }
}

/// A requirement read from its text: the text, and the requirement that
/// semver read from it. Only [`parse_version_req`] makes one.
pub struct ParsedVersionReq {
    text: String,
    req: VersionReq,
}

impl View for ParsedVersionReq {
    type V = Seq<char>;

    closed spec fn view(&self) -> Seq<char> {
        self.text@
    }
}

/// Whether the version written in `version` meets the requirement written
/// in `requirement`, by semver's rules (`VersionReq::matches` on what
/// `VersionReq::parse` and `Version::parse` read).
pub uninterp spec fn semver_matches(requirement: Seq<char>, version: Seq<char>) -> bool;

/// `semver::Version::parse`: the version written in `text`, where `text` is a
/// valid version (named by `semver_version_parses`), kept with its text.
#[verifier::external_body]
fn parse_version(text: &str) -> (r: Option<ParsedVersion>)
    ensures
        r is Some <==> semver_version_parses(text@),
        r matches Some(v) ==> v@ == text@,
{
    match Version::parse(text) {
        Ok(version) => Some(ParsedVersion { text: text.to_string(), version }),
        Err(_) => None,
    }
}

/// `semver::VersionReq::parse`: the requirement written in `text`, where it is
/// valid (named by `semver_req_parses`), kept with its text. The source's
/// grammar accepts a major and a minor numeral separated by a dot, which
/// means "compatible with".
#[verifier::external_body]
fn parse_version_req(text: &str) -> (r: Option<ParsedVersionReq>)
    ensures
        r is Some <==> semver_req_parses(text@),
        is_major_minor(text@) ==> r is Some,
        r matches Some(q) ==> q@ == text@,
{
    match VersionReq::parse(text) {
        Ok(req) => Some(ParsedVersionReq { text: text.to_string(), req }),
        Err(_) => None,
    }
}

/// `semver::VersionReq::matches`: whether the version meets the requirement.
/// The answer is a function of the two texts they were read from, named by
/// `semver_matches`; semver's rules decide it.
#[verifier::external_body]
fn req_matches(req: &ParsedVersionReq, version: &ParsedVersion) -> (r: bool)
    ensures
        r == semver_matches(req@, version@),
{
    req.req.matches(&version.version)
}

/// The position of the first `.` in `s`.
pub open spec fn first_dot(s: Seq<char>) -> Option<int>
    decreases s.len(),
{
    if s.len() == 0 {
        None
    } else {
        match first_dot(s.drop_last()) {
            Some(i) => Some(i),
            None => if s.last() == '.' {
                Some(s.len() - 1)
            } else {
                None
            },
        }
    }
}

proof fn lemma_first_dot(s: Seq<char>)
    ensures
        match first_dot(s) {
            Some(i) => 0 <= i < s.len() && s[i] == '.' && forall|j: int| 0 <= j < i ==> s[j] != '.',
            None => forall|j: int| 0 <= j < s.len() ==> s[j] != '.',
        },
    decreases s.len(),
{
    if s.len() > 0 {
        lemma_first_dot(s.drop_last());
        assert forall|j: int| 0 <= j < s.len() - 1 implies s.drop_last()[j] == s[j] by {}
    }
}

/// `s` split at its first `.` (as `str::split_once('.')`).
pub fn split_once_dot(s: &str) -> (r: Option<(&str, &str)>)
    ensures
        match first_dot(s@) {
            Some(i) => r matches Some((a, b)) && a@ == s@.take(i) && b@ == s@.skip(i + 1),
            None => r is None,
        },
{
    proof {
        lemma_first_dot(s@);
    }
    let n = s.unicode_len();
    let mut i: usize = 0;
    while i < n
        invariant
            n == s@.len(),
            i <= n,
            forall|j: int| 0 <= j < i ==> s@[j] != '.',
            match first_dot(s@) {
                Some(k) => 0 <= k < s@.len() && s@[k] == '.' && forall|j: int| 0 <= j < k ==> s@[j] != '.',
                None => forall|j: int| 0 <= j < s@.len() ==> s@[j] != '.',
            },
        decreases n - i,
    {
        if s.get_char(i) == '.' {
            proof {
                assert(s@.subrange(0, i as int) =~= s@.take(i as int));
                assert(s@.subrange(i + 1, n as int) =~= s@.skip(i + 1));
            }
            return Some((s.substring_char(0, i), s.substring_char(i + 1, n)));
        }
        i = i + 1;
    }
    None
}

/// Decides the check of a project file's version from its parts: the year
/// needed and got, the requirement and the version (as text), and whether the
/// version meets the requirement.
pub fn version_outcome(
    year_needed: &str,
    year_got: &str,
    requirement: &str,
    version: &str,
    matches: bool,
) -> (r: Result<(), StartupError>)
    ensures
        year_needed@ != year_got@ ==> (r matches Err(StartupError::YypYearNotMatch(a, b)) && a@ == year_needed@
            && b@ == year_got@),
        year_needed@ == year_got@ && !matches ==> (r matches Err(StartupError::YypDoesNotMatch(a, b)) && a@
            == requirement@ && b@ == version@),
        year_needed@ == year_got@ && matches ==> r is Ok,
{
    if !crate::string_map::str_eq(year_needed, year_got) {
        return Err(StartupError::YypYearNotMatch(year_needed.to_string(), year_got.to_string()));
    }
    if !matches {
        return Err(StartupError::YypDoesNotMatch(requirement.to_string(), version.to_string()));
    }
    Ok(())
}

/// Whether the version after the year part of `ide_version` is a valid version.
pub open spec fn version_part_parses(ide_version: Seq<char>) -> bool {
    first_dot(ide_version) matches Some(i) && semver_version_parses(ide_version.skip(i + 1))
}

/// Checks the IDE version that a project file was written by against the one
/// the typings were written for (`6.0.23`): both are split at their first dot
/// into a year and a version; the years must agree, and the version must be
/// compatible with the typings' (`0.23`).
pub fn check_ide_version(ide_version: &str) -> (r: Result<(), StartupError>)
    requires
        version_part_parses(ide_version@),
    ensures
        ({
            let i = first_dot(ide_version@)->Some_0;
            let year = ide_version@.take(i);
            let version = ide_version@.skip(i + 1);
            &&& year != "6"@ ==> (r matches Err(StartupError::YypYearNotMatch(a, b)) && a@ == "6"@ && b@ == year)
            &&& year == "6"@ && semver_matches("0.23"@, version) ==> r is Ok
            &&& year == "6"@ && !semver_matches("0.23"@, version) ==> (r matches Err(
                StartupError::YypDoesNotMatch(a, b),
            ) && a@ == "0.23"@ && b@ == version)
        }),
{
    let default_version = yyp_default_version();
    proof {
        reveal_strlit("6.0.23");
        reveal_strlit("6");
        reveal_strlit("0.23");
        lemma_first_dot(default_version@);
        assert(default_version@[1] == '.');
        assert(default_version@[0] != '.');
        assert(default_version@.take(1) =~= "6"@);
        assert(default_version@.skip(2) =~= "0.23"@);
        let s = "0.23"@;
        assert(s.take(1) =~= seq!['0']);
        assert(s.skip(2) =~= seq!['2', '3']);
        assert(is_numeral(s.take(1)));
        assert(is_numeral(s.skip(2)));
        assert(s.skip(1int + 1) == s.skip(2));
        assert(0 < 1 < s.len() && s[1] == '.' && is_numeral(s.take(1)) && is_numeral(s.skip(1int + 1)));
        assert(is_major_minor(s));
    }
    let (year_needed, req_text) = match split_once_dot(default_version) {
        Some(parts) => parts,
        None => {
            proof {
                assert(false);
            }
            return Ok(());
        },
    };
    let requirement = match parse_version_req(req_text) {
        Some(req) => req,
        None => {
            proof {
                assert(false);
            }
            return Ok(());
        },
    };
    let (year_got, version_text) = match split_once_dot(ide_version) {
        Some(parts) => parts,
        None => {
            proof {
                assert(false);
            }
            return Ok(());
        },
    };
    let version = match parse_version(version_text) {
        Some(v) => v,
        None => {
            proof {
                assert(false);
            }
            return Ok(());
        },
    };
    let matches = req_matches(&requirement, &version);
    version_outcome(year_needed, year_got, req_text, version_text, matches)
}

/// Checks the IDE version that a project file was written by, where its parts
/// can be read: `None` where `ide_version` has no dot, or where what follows
/// its first dot is not a valid version; otherwise what [`check_ide_version`]
/// gives.
pub fn check_ide_version_checked(ide_version: &str) -> (r: Option<Result<(), StartupError>>)
    ensures
        r is Some <==> version_part_parses(ide_version@),
        r matches Some(res) ==> ({
            let i = first_dot(ide_version@)->Some_0;
            let year = ide_version@.take(i);
            let version = ide_version@.skip(i + 1);
            &&& year != "6"@ ==> (res matches Err(StartupError::YypYearNotMatch(a, b)) && a@ == "6"@ && b@ == year)
            &&& year == "6"@ && semver_matches("0.23"@, version) ==> res is Ok
            &&& year == "6"@ && !semver_matches("0.23"@, version) ==> (res matches Err(
                StartupError::YypDoesNotMatch(a, b),
            ) && a@ == "0.23"@ && b@ == version)
        }),
{
    match split_once_dot(ide_version) {
        Some((_, version_text)) => {
            if parse_version(version_text).is_some() {
                Some(check_ide_version(ide_version))
            } else {
                None
            }
        },
        None => None,
    }
}
} // verus!
