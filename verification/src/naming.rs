use vstd::prelude::*;

verus! {

/// What sanitising a raw file name yields: path separators, control and
/// reserved characters stripped. A function of the raw name alone.
pub uninterp spec fn sanitized_of(name: Seq<char>) -> Seq<char>;

/// Relies on sanitize_filename::sanitize_with_options: strips directory
/// traversal and illegal filename characters. The options are fixed
/// (windows rules on, truncation on, empty replacement) so the result
/// depends on the raw name alone on every platform.
#[verifier::external_body]
pub fn sanitize_name(name: &str) -> (r: String)
    ensures
        r@ == sanitized_of(name@),
{
    sanitize_filename::sanitize_with_options(
        name,
        sanitize_filename::Options { windows: true, truncate: true, replacement: "" },
    )
}

/// Relies on uuid::Uuid::new_v4 and its hyphenated Display form, which is
/// documented as 36 characters. The value is random, so nothing more is
/// assumed of it. Aborts only if the operating system's random source
/// fails, an environmental fault of the same kind as allocation failure.
#[verifier::external_body]
pub fn fresh_file_id() -> (r: String)
    ensures
        r@.len() == 36,
{
    uuid::Uuid::new_v4().to_string()
}

} // verus!
