//! The texture groups of a project and the paths by which resources name them.
use vstd::prelude::*;
use crate::string_map::str_eq;

verus! {

/// The path of a texture group: its name, and its location
/// `texturegroups/<name>`.
pub struct TexturePath {
    pub name: String,
    pub path: String,
}

/// The location of the texture group named `name`.
pub open spec fn texture_location(name: Seq<char>) -> Seq<char> {
    "texturegroups/"@ + name
}

/// The path of the texture group named `name`.
pub fn texture_path(name: &str) -> (t: TexturePath)
    ensures
        t.name@ == name@,
        t.path@ == texture_location(name@),
{
    let mut path = String::from_str("texturegroups/");
    path.append(name);
    TexturePath { name: name.to_string(), path }
}

/// The path of the default texture group, the one named `Default`, where the
/// project has such a group among `texture_group_names`.
pub fn default_texture_path(texture_group_names: &Vec<String>) -> (r: Option<TexturePath>)
    ensures
        r is Some <==> exists|i: int| 0 <= i < texture_group_names.len() && texture_group_names[i]@ == "Default"@,
        r matches Some(t) ==> t.name@ == "Default"@ && t.path@ == texture_location("Default"@),
{
    let mut i: usize = 0;
    while i < texture_group_names.len()
        invariant
            i <= texture_group_names.len(),
            forall|j: int| 0 <= j < i ==> texture_group_names[j]@ != "Default"@,
        decreases texture_group_names.len() - i,
    {
        if str_eq(texture_group_names[i].as_str(), "Default") {
            return Some(texture_path(texture_group_names[i].as_str()));
        }
        i = i + 1;
    }
    None
}

} // verus!
