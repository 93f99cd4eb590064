//! Where each stage of an experiment's data lives.
//!
//! An experiment directory holds `raw` (the instruments' files), `1_COP`
//! (images as text), `1_decoded` (decoded MCS lists, extension `lstdecoded`),
//! `2_combined`/`2_molaxis` (image and MCS data joined, molecular axes) and
//! `3_analyzed` (spectra). The functions below map a file of one stage to the
//! file or directory of another.

use crate::paths::{
    is_plain_component, file_name, path_file_name, path_popped, path_pushed, path_with_extension, pop, push,
    set_extension,
};
use vstd::prelude::*;

verus! {

/// The path of the decoded MCS list for the raw list file `path` (in `raw`):
/// the file name in `1_decoded`, a sibling of `raw`, with the extension
/// `lstdecoded`.
pub open spec fn spec_lst2lstdecoded(path: Seq<char>) -> Seq<char> {
    path_with_extension(
        path_pushed(
            path_pushed(path_popped(path_popped(path)), "1_decoded"@),
            path_file_name(path)->0,
        ),
        "lstdecoded"@,
    )
}

/// The molecular-axis file for the image file `path` (in `1_COP`): the file
/// name in `2_molaxis`, a sibling of the image file's directory.
pub open spec fn spec_cop2molaxis(path: Seq<char>) -> Seq<char> {
    path_pushed(
        path_pushed(path_popped(path_popped(path)), "2_molaxis"@),
        path_file_name(path)->0,
    )
}

/// The decoded MCS list that belongs to the image file `path` (in `1_COP`):
/// the file name in `1_decoded`, with the extension `lstdecoded`.
pub open spec fn spec_cop2mcs(path: Seq<char>) -> Seq<char> {
    path_with_extension(
        path_pushed(
            path_pushed(path_popped(path_popped(path)), "1_decoded"@),
            path_file_name(path)->0,
        ),
        "lstdecoded"@,
    )
}

/// The analysis directory `3_analyzed` of the experiment that holds the file
/// `path` (two levels up).
pub open spec fn spec_analyzed_folder(path: Seq<char>) -> Seq<char> {
    path_pushed(path_popped(path_popped(path)), "3_analyzed"@)
}

/// The file name of `path`, which the caller knows to exist.
fn existing_file_name(path: &String) -> (r: String)
    requires
        path_file_name(path@) is Some,
    ensures
        r@ == path_file_name(path@)->0,
{
    match file_name(path.as_str()) {
        Some(name) => name,
        None => {
            assert(false);
            String::new()
        },
    }
}

/// The decoded MCS list for the raw list file `path`.
pub fn lst2lstdecoded(path: &String) -> (r: String)
    requires
        path_file_name(path@) is Some,
    ensures
        r@ == spec_lst2lstdecoded(path@),
{
    let name = existing_file_name(path);
    let dir = pop(path.as_str());
    let dir = pop(dir.as_str());
    let dir = push(dir.as_str(), "1_decoded");
    let target = push(dir.as_str(), name.as_str());
    proof {
        reveal_strlit("lstdecoded");
    }
    set_extension(target.as_str(), "lstdecoded")
}

/// The molecular-axis file for the image file `path`. It keeps the image
/// file's name, where that name is a plain component.
pub fn cop2molaxis(path: &String) -> (r: String)
    requires
        path_file_name(path@) is Some,
    ensures
        r@ == spec_cop2molaxis(path@),
        is_plain_component(path_file_name(path@)->0) ==> path_file_name(r@) == path_file_name(path@),
{
    let name = existing_file_name(path);
    let dir = pop(path.as_str());
    let dir = pop(dir.as_str());
    let dir = push(dir.as_str(), "2_molaxis");
    push(dir.as_str(), name.as_str())
}

/// The decoded MCS list that belongs to the image file `path`.
pub fn cop2mcs(path: &String) -> (r: String)
    requires
        path_file_name(path@) is Some,
    ensures
        r@ == spec_cop2mcs(path@),
{
    let name = existing_file_name(path);
    let dir = pop(path.as_str());
    let dir = pop(dir.as_str());
    let dir = push(dir.as_str(), "1_decoded");
    let target = push(dir.as_str(), name.as_str());
    proof {
        reveal_strlit("lstdecoded");
    }
    set_extension(target.as_str(), "lstdecoded")
}

/// The analysis directory of the experiment that holds `path`; its name is
/// `3_analyzed`.
pub fn analyzed_folder(path: &String) -> (r: String)
    ensures
        r@ == spec_analyzed_folder(path@),
        path_file_name(r@) == Some("3_analyzed"@),
{
    let dir = pop(path.as_str());
    let dir = pop(dir.as_str());
    proof {
        reveal_strlit("3_analyzed");
    }
    push(dir.as_str(), "3_analyzed")
}

/// `lst2lstdecoded`, or `None` where `path` has no file name.
pub fn try_lst2lstdecoded(path: &String) -> (r: Option<String>)
    ensures
        r is Some <==> path_file_name(path@) is Some,
        r matches Some(p) ==> p@ == spec_lst2lstdecoded(path@),
{
    match file_name(path.as_str()) {
        Some(_) => Some(lst2lstdecoded(path)),
        None => None,
    }
}

/// `cop2molaxis`, or `None` where `path` has no file name.
pub fn try_cop2molaxis(path: &String) -> (r: Option<String>)
    ensures
        r is Some <==> path_file_name(path@) is Some,
        r matches Some(p) ==> p@ == spec_cop2molaxis(path@),
{
    match file_name(path.as_str()) {
        Some(_) => Some(cop2molaxis(path)),
        None => None,
    }
}

/// `cop2mcs`, or `None` where `path` has no file name.
pub fn try_cop2mcs(path: &String) -> (r: Option<String>)
    ensures
        r is Some <==> path_file_name(path@) is Some,
        r matches Some(p) ==> p@ == spec_cop2mcs(path@),
{
    match file_name(path.as_str()) {
        Some(_) => Some(cop2mcs(path)),
        None => None,
    }
}

} // verus!
