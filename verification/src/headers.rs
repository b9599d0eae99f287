//! Ordered header lists with case-insensitive lookup.
//!
//! A header block is a `Vec<(String, String)>` in wire order; the
//! case-insensitive map view of a header block is the lookup functions
//! here, so order and duplicates are preserved exactly.

use vstd::prelude::*;

verus! {

use vstd::utf8::encode_utf8;
use crate::text::{eq_ci, str_bytes, str_eq_ci};

/// The UTF-8 bytes of an owned string, the model used for all header text.
pub open spec fn string_bytes(s: String) -> Seq<u8> {
    encode_utf8(s@)
}

/// The header's name equals `name` up to ASCII case.
pub open spec fn header_matches(h: (String, String), name: Seq<u8>) -> bool {
    eq_ci(string_bytes(h.0), name)
}

/// Some header in the list has this name.
pub open spec fn spec_has_header(hs: Seq<(String, String)>, name: Seq<u8>) -> bool {
    exists|j: int| 0 <= j < hs.len() && header_matches(#[trigger] hs[j], name)
}

/// No header in the list has this name.
pub open spec fn spec_no_header(hs: Seq<(String, String)>, name: Seq<u8>) -> bool {
    forall|j: int| 0 <= j < hs.len() ==> !header_matches(#[trigger] hs[j], name)
}

/// `i` is the position of the first header with this name.
pub open spec fn spec_first_match(hs: Seq<(String, String)>, name: Seq<u8>, i: int) -> bool {
    &&& 0 <= i < hs.len()
    &&& header_matches(hs[i], name)
    &&& forall|j: int| 0 <= j < i ==> !header_matches(#[trigger] hs[j], name)
}

/// The value of the first header with this name, scanning front to back.
pub open spec fn spec_value_of(hs: Seq<(String, String)>, name: Seq<u8>) -> Option<String>
    decreases hs.len(),
{
    if hs.len() == 0 {
        None
    } else if header_matches(hs[0], name) {
        Some(hs[0].1)
    } else {
        spec_value_of(hs.drop_first(), name)
    }
}

/// A first match at `i` fixes `spec_value_of`, and no match means `None`.
pub proof fn lemma_value_of_first_match(hs: Seq<(String, String)>, name: Seq<u8>, i: int)
    requires
        spec_first_match(hs, name, i),
    ensures
        spec_value_of(hs, name) == Some(hs[i].1),
    decreases hs.len(),
{
    if i > 0 {
        assert(!header_matches(hs[0], name));
        let rest = hs.drop_first();
        assert forall|j: int| 0 <= j < i - 1 implies !header_matches(
            #[trigger] rest[j],
            name,
        ) by {
            assert(rest[j] == hs[j + 1]);
        }
        assert(rest[i - 1] == hs[i]);
        lemma_value_of_first_match(rest, name, i - 1);
    }
}

/// No header with the name means no value.
pub proof fn lemma_value_of_no_header(hs: Seq<(String, String)>, name: Seq<u8>)
    requires
        spec_no_header(hs, name),
    ensures
        spec_value_of(hs, name) is None,
    decreases hs.len(),
{
    if hs.len() > 0 {
        let rest = hs.drop_first();
        assert forall|j: int| 0 <= j < rest.len() implies !header_matches(
            #[trigger] rest[j],
            name,
        ) by {
            assert(rest[j] == hs[j + 1]);
        }
        lemma_value_of_no_header(rest, name);
    }
}

/// Position of the first header whose name equals `name` up to ASCII case.
pub fn find_header(headers: &Vec<(String, String)>, name: &str) -> (r: Option<usize>)
    ensures
        match r {
            Some(i) => spec_first_match(headers@, str_bytes(name), i as int),
            None => spec_no_header(headers@, str_bytes(name)),
        },
{
    let mut i: usize = 0;
    while i < headers.len()
        invariant
            i <= headers@.len(),
            forall|j: int|
                0 <= j < i ==> !header_matches(#[trigger] headers@[j], str_bytes(name)),
        decreases headers@.len() - i,
    {
        if str_eq_ci(headers[i].0.as_str(), name) {
            return Some(i);
        }
        i += 1;
    }
    None
}

/// Value of the first header with this name, if any.
pub fn header_value(headers: &Vec<(String, String)>, name: &str) -> (r: Option<String>)
    ensures
        r == spec_value_of(headers@, str_bytes(name)),
        r is Some <==> spec_has_header(headers@, str_bytes(name)),
{
    match find_header(headers, name) {
        Some(i) => {
            proof {
                lemma_value_of_first_match(headers@, str_bytes(name), i as int);
            }
            Some(headers[i].1.clone())
        },
        None => {
            proof {
                lemma_value_of_no_header(headers@, str_bytes(name));
            }
            None
        },
    }
}

/// Whether a header with this name is present.
pub fn has_header(headers: &Vec<(String, String)>, name: &str) -> (r: bool)
    ensures
        r == spec_has_header(headers@, str_bytes(name)),
{
    find_header(headers, name).is_some()
}

/// Replace the value of the first header with this name, or append the
/// pair when the name is absent. Other entries are untouched.
pub fn set_header(headers: &mut Vec<(String, String)>, name: &str, value: String)
    ensures
        match spec_find_result(old(headers)@, str_bytes(name)) {
            Some(i) => spec_first_match(old(headers)@, str_bytes(name), i as int)
                && final(headers)@ == old(headers)@.update(
                i as int,
                (old(headers)@[i as int].0, value),
            ),
            None => {
                &&& spec_no_header(old(headers)@, str_bytes(name))
                &&& final(headers)@.len() == old(headers)@.len() + 1
                &&& final(headers)@.subrange(0, old(headers)@.len() as int) == old(headers)@
                &&& final(headers)@.last().0@ == name@
                &&& final(headers)@.last().1 == value
            },
        },
{
    let found = find_header(headers, name);
    proof {
        lemma_find_result_agrees(headers@, str_bytes(name), found);
    }
    match found {
        Some(i) => {
            let ghost old_hs = headers@;
            let name_owned = headers[i].0.clone();
            headers[i] = (name_owned, value);
            proof {
                assert(headers@ =~= old_hs.update(i as int, (old_hs[i as int].0, value)));
            }
        },
        None => {
            let pushed: String = name.to_owned();
            headers.push((pushed, value));
            proof {
                assert(headers@.subrange(0, old(headers)@.len() as int) =~= old(headers)@);
            }
        },
    }
}

/// The canonical answer of `find_header`, used in contracts: the first
/// matching position, or `None`.
pub open spec fn spec_find_result(hs: Seq<(String, String)>, name: Seq<u8>) -> Option<usize> {
    if spec_no_header(hs, name) {
        None
    } else {
        Some(choose|i: usize| spec_first_match(hs, name, i as int))
    }
}

proof fn lemma_first_match_unique(hs: Seq<(String, String)>, name: Seq<u8>, i: int, j: int)
    requires
        spec_first_match(hs, name, i),
        spec_first_match(hs, name, j),
    ensures
        i == j,
{
}

proof fn lemma_find_result_agrees(hs: Seq<(String, String)>, name: Seq<u8>, found: Option<usize>)
    requires
        match found {
            Some(i) => spec_first_match(hs, name, i as int),
            None => spec_no_header(hs, name),
        },
    ensures
        spec_find_result(hs, name) == found,
{
    match found {
        Some(i) => {
            assert(header_matches(hs[i as int], name));
            assert(!spec_no_header(hs, name));
            let j = choose|j: usize| spec_first_match(hs, name, j as int);
            assert(spec_first_match(hs, name, i as int));
            lemma_first_match_unique(hs, name, i as int, j as int);
        },
        None => {
        },
    }
}

/// Remove every header with this name, keeping the rest in order.
pub fn remove_header(headers: &mut Vec<(String, String)>, name: &str)
    ensures
        final(headers)@ == old(headers)@.filter(
            |h: (String, String)| !header_matches(h, str_bytes(name)),
        ),
{
    broadcast use vstd::seq_lib::group_filter_ensures;

    let ghost keep = |h: (String, String)| !header_matches(h, str_bytes(name));
    let mut out: Vec<(String, String)> = Vec::new();
    let mut i: usize = 0;
    while i < headers.len()
        invariant
            i <= headers@.len(),
            out@ == headers@.subrange(0, i as int).filter(
                |h: (String, String)| !header_matches(h, str_bytes(name)),
            ),
        decreases headers@.len() - i,
    {
        let ghost prefix = headers@.subrange(0, i as int);
        if !str_eq_ci(headers[i].0.as_str(), name) {
            out.push((headers[i].0.clone(), headers[i].1.clone()));
        }
        proof {
            assert(headers@.subrange(0, i + 1) =~= prefix.push(headers@[i as int]));
            prefix.lemma_filter_push(
                headers@[i as int],
                |h: (String, String)| !header_matches(h, str_bytes(name)),
            );
        }
        i += 1;
    }
    proof {
        assert(headers@.subrange(0, headers@.len() as int) =~= headers@);
    }
    *headers = out;
}

} // verus!
