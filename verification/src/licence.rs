//! Licence URL to SPDX-style identifier.
//!
//! Upstreams publish a Creative Commons *URL*, while the metadata keys require
//! an SPDX-style identifier: a consumer comparing licences should not be doing
//! string surgery on `http://` vs `https://` and a trailing slash.

use crate::text::{
    chars_of, contains, has, lowered, nth_part, push_all, split_nth, to_ascii_lowercase,
    to_ascii_uppercase, trim, trim_end_char, trimmed, trimmed_end_char, uppered,
};
use vstd::prelude::*;
use vstd::string::StringExecFns;

pub mod laws;

verus! {

/// The URL as it is compared: without the whitespace around it and the slashes
/// at its end, in small letters.
pub open spec fn canonical(url: Seq<char>) -> Seq<char> {
    to_ascii_lowercase(trim_end_char(trim(url), '/'))
}

/// The identifier of a Creative Commons licence.
pub open spec fn cc_identifier(variant: Seq<char>, version: Seq<char>) -> Seq<char> {
    "CC-"@ + variant + "-"@ + version
}

/// The identifier that a canonical URL stands for:
/// `.../licenses/<variant>/<version>[/<jurisdiction>]`, version 4.0 where it
/// names none.
pub open spec fn identifier(u: Seq<char>) -> Option<Seq<char>> {
    if contains(u, "publicdomain/zero"@) {
        Some("CC0-1.0"@)
    } else if contains(u, "publicdomain/mark"@) {
        Some("PublicDomain"@)
    } else {
        match nth_part(u, "/licenses/"@, 1) {
            Some(rest) => {
                let variant = nth_part(rest, "/"@, 0)->0;
                let version = match nth_part(rest, "/"@, 1) {
                    Some(version) => version,
                    None => "4.0"@,
                };
                if variant.len() == 0 {
                    None
                } else {
                    Some(cc_identifier(to_ascii_uppercase(variant), version))
                }
            },
            None => None,
        }
    }
}

/// The SPDX-style identifier of the licence that `url` names, if it names one.
pub fn licence_from_url(url: &str) -> (r: Option<String>)
    ensures
        match r {
            Some(id) => identifier(canonical(url@)) == Some(id@),
            None => identifier(canonical(url@)) is None,
        },
{
    let u: Vec<char> = lowered(&trimmed_end_char(&trimmed(&chars_of(url)), '/'));
    if u.len() == 0 {
        proof {
            reveal_strlit("publicdomain/zero");
            reveal_strlit("publicdomain/mark");
            reveal_strlit("/licenses/");
        }
        return None;
    }
    if has(&u, &chars_of("publicdomain/zero")) {
        return Some(String::from_str("CC0-1.0"));
    }
    if has(&u, &chars_of("publicdomain/mark")) {
        return Some(String::from_str("PublicDomain"));
    }
    let rest: Vec<char> = match split_nth(&u, &chars_of("/licenses/"), 1) {
        Some(rest) => rest,
        None => {
            return None;
        },
    };
    let slash: Vec<char> = chars_of("/");
    let variant: Vec<char> = match split_nth(&rest, &slash, 0) {
        Some(variant) => uppered(&variant),
        None => {
            return None;
        },
    };
    let version: Vec<char> = match split_nth(&rest, &slash, 1) {
        Some(version) => version,
        None => chars_of("4.0"),
    };
    if variant.len() == 0 {
        return None;
    }
    let mut id: String = String::from_str("CC-");
    push_all(&mut id, &variant);
    id.append("-");
    push_all(&mut id, &version);
    Some(id)
}

} // verus!
