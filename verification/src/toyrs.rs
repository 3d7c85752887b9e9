//! Where the textures and the metadata of a shader file are found.

use vstd::prelude::*;
use crate::text::{append, append_str, has_str_at, occurs_at, to_chars, to_string};

verus! {

/// The address under which relative texture paths are resolved.
pub open spec fn base_url() -> Seq<char> {
    "https://compute.toys/"@
}

/// The address of the texture `img`: `img` itself where it begins with
/// `http`, else `img` behind the base address.
pub open spec fn texture_url(img: Seq<char>) -> Seq<char> {
    if occurs_at(img, 0, "http"@) {
        img
    } else {
        base_url() + img
    }
}

/// The address from which the texture `img` is fetched.
pub fn construct_texture_url(img: &str) -> (r: String)
    ensures
        r@ == texture_url(img@),
{
    let t = to_chars(img);
    if has_str_at(t.as_slice(), 0, "http") {
        to_string(t.as_slice())
    } else {
        let mut url: Vec<char> = Vec::new();
        append_str(&mut url, "https://compute.toys/");
        append(&mut url, t.as_slice());
        to_string(url.as_slice())
    }
}

/// The path of the metadata that belongs to the shader file `filename`.
pub fn construct_metadata_path(filename: &str) -> (r: String)
    ensures
        r@ == filename@ + ".json"@,
{
    let mut path: Vec<char> = to_chars(filename);
    append_str(&mut path, ".json");
    to_string(path.as_slice())
}

} // verus!
