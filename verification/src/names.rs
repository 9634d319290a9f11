//! Validation of resource names, which the project-file typings provide.
use vstd::prelude::*;
use yy_typings::utils::ResourceNameValidator;

verus! {

/// The validator of resource names, which holds a compiled regular expression.
#[verifier::external_type_specification]
#[verifier::external_body]
pub struct ExResourceNameValidator(ResourceNameValidator);

/// Whether a name is accepted by `ResourceNameValidator::is_valid`, whose
/// regular expression is `^[A-z_]\w*$`.
pub uninterp spec fn valid_resource_name(name: Seq<char>) -> bool;

/// `ResourceNameValidator::new`: compiles the validator's regular expression,
/// which is a fixed, well-formed pattern.
#[verifier::external_body]
pub(crate) fn new_name_validator() -> (v: ResourceNameValidator) {
    ResourceNameValidator::new()
}

/// `ResourceNameValidator::is_valid`: whether `name` matches `^[A-z_]\w*$`.
/// The result is named by `valid_resource_name`; the source shows that a
/// name must be non-empty and start with a character between `A` and `z`
/// (which includes `_`). Which further characters `\w` admits (it is
/// Unicode-aware) is not stated here.
#[verifier::external_body]
pub(crate) fn name_is_valid(validator: &ResourceNameValidator, name: &str) -> (r: bool)
    ensures
        r == valid_resource_name(name@),
        r ==> name@.len() > 0 && 'A' <= name@[0] <= 'z',
{
    validator.is_valid(name)
}


/// Why a path could not be made from a name.
#[derive(Debug, PartialEq, Eq)]
pub enum PathError {
    /// The name holds characters that a path may not.
    PathContainsInvalidCharacters,
}

/// The location of the texture group named `texture_group_name`, which is
/// the name itself. A name that is not a valid resource name is refused.
pub fn texture_path_location(texture_group_name: &str, pv: &ResourceNameValidator) -> (r: Result<String, PathError>)
    ensures
        valid_resource_name(texture_group_name@) ==> (r matches Ok(loc) && loc@ == texture_group_name@),
        !valid_resource_name(texture_group_name@) ==> r == Err::<String, PathError>(
            PathError::PathContainsInvalidCharacters,
        ),
{
    if !name_is_valid(pv, texture_group_name) {
        Err(PathError::PathContainsInvalidCharacters)
    } else {
        Ok(texture_group_name.to_string())
    }
}
} // verus!
