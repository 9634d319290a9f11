//! The kinds of resource that a project holds, and the directory each lives in.
use vstd::prelude::*;
use crate::string_map::str_eq;

verus! {

/// A kind of resource.
#[derive(Debug, PartialEq, Eq, Ord, PartialOrd, Copy, Clone, Hash, Structural)]
pub enum Resource {
    Sprite,
    Script,
    Object,
}

/// The directory, relative to the project, under which resources of a kind live.
pub open spec fn base_name_spec(r: Resource) -> Seq<char> {
    match r {
        Resource::Sprite => "sprites"@,
        Resource::Script => "scripts"@,
        Resource::Object => "objects"@,
    }
}

/// The human-readable name of a kind.
pub open spec fn display_name_spec(r: Resource) -> Seq<char> {
    match r {
        Resource::Sprite => "sprite"@,
        Resource::Script => "script"@,
        Resource::Object => "object"@,
    }
}

/// The kind whose directory is `s`, if any.
pub open spec fn parse_subpath_spec(s: Seq<char>) -> Option<Resource> {
    if s == base_name_spec(Resource::Sprite) {
        Some(Resource::Sprite)
    } else if s == base_name_spec(Resource::Script) {
        Some(Resource::Script)
    } else if s == base_name_spec(Resource::Object) {
        Some(Resource::Object)
    } else {
        None
    }
}

impl Resource {
    /// The directory, relative to the project, under which resources of this kind live.
    pub fn base_name(&self) -> (s: &'static str)
        ensures
            s@ == base_name_spec(*self),
    {
        match self {
            Resource::Sprite => "sprites",
            Resource::Script => "scripts",
            Resource::Object => "objects",
        }
    }

    /// The human-readable name of this kind.
    pub fn to_string(&self) -> (s: String)
        ensures
            s@ == display_name_spec(*self),
    {
        let s = match self {
            Resource::Sprite => "sprite",
            Resource::Script => "script",
            Resource::Object => "object",
        };
        s.to_owned()
    }

    /// The kind whose directory is named `subpath`, if any.
    pub fn parse_subpath(subpath: &str) -> (r: Option<Resource>)
        ensures
            r == parse_subpath_spec(subpath@),
    {
        if str_eq(subpath, Resource::Sprite.base_name()) {
            Some(Resource::Sprite)
        } else if str_eq(subpath, Resource::Script.base_name()) {
            Some(Resource::Script)
        } else if str_eq(subpath, Resource::Object.base_name()) {
            Some(Resource::Object)
        } else {
            None
        }
    }
}

/// Each kind is found again from its directory name.
pub proof fn law_parse_subpath_inverts_base_name(r: Resource)
    ensures
        parse_subpath_spec(base_name_spec(r)) == Some(r),
{
    reveal_strlit("sprites");
    reveal_strlit("scripts");
    reveal_strlit("objects");
    assert(base_name_spec(Resource::Sprite)[1] != base_name_spec(Resource::Script)[1]);
    assert(base_name_spec(Resource::Sprite)[0] != base_name_spec(Resource::Object)[0]);
    assert(base_name_spec(Resource::Script)[0] != base_name_spec(Resource::Object)[0]);
}

} // verus!
