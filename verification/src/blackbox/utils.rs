//! Quick checks on raw blackbox data that do not need a full parse.

use crate::blackbox::BlackboxError;
use crate::info_map::InfoMap;
use crate::text::{
    byte_prefix, chars_of, contains, contains_spec, decode_text, find_line_containing,
    find_line_starting, first_containing, first_starting_with, lines, lines_of, lossy_decode,
    string_of, trim, trim_spec, trim_start_matches, trim_start_matches_spec,
};
use vstd::prelude::*;

verus! {

/// `min(len, n)` for a byte sequence.
pub open spec fn prefix_len(data: Seq<u8>, n: int) -> int {
    if data.len() < n {
        data.len() as int
    } else {
        n
    }
}

/// The text of the first `n` bytes of `data`, decoded lossily.
pub open spec fn prefix_text(data: Seq<u8>, n: int) -> Seq<char> {
    lossy_decode(data.take(prefix_len(data, n)))
}

/// Whether the text carries one of the blackbox header markers.
pub open spec fn has_blackbox_marker(t: Seq<char>) -> bool {
    ||| contains_spec(t, "H Product:"@)
    ||| contains_spec(t, "H modeActivationConditions"@)
    ||| contains_spec(t, "H features"@)
    ||| contains_spec(t, "H Blackbox version"@)
}

/// A blackbox log: at least 10 bytes, with a header marker in the first 1000 bytes.
pub open spec fn is_blackbox_spec(data: Seq<u8>) -> bool {
    data.len() >= 10 && has_blackbox_marker(prefix_text(data, 1000))
}

/// Detection reads only the first 1000 bytes: data shorter than 10 bytes
/// is never a log, and bytes past the first 1000 never change the answer.
pub proof fn lemma_detection_reads_prefix(data: Seq<u8>, rest: Seq<u8>)
    ensures
        data.len() < 10 ==> !is_blackbox_spec(data),
        data.len() >= 1000 ==> is_blackbox_spec(data + rest) == is_blackbox_spec(data),
{
    if data.len() >= 1000 {
        assert((data + rest).take(1000) =~= data.take(1000));
    }
}

/// Detect if data is a valid blackbox file
pub fn is_blackbox_file(data: &[u8]) -> (res: bool)
    ensures
        res == is_blackbox_spec(data@),
{
    if data.len() < 10 {
        return false;
    }
    let head = byte_prefix(data, 1000);
    let text = decode_text(&head);
    contains(&text, &chars_of("H Product:")) || contains(&text, &chars_of("H modeActivationConditions"))
        || contains(&text, &chars_of("H features")) || contains(&text, &chars_of("H Blackbox version"))
}

/// The value recorded for the firmware line, if any.
pub open spec fn firmware_info(ls: Seq<Seq<char>>) -> Option<Seq<char>> {
    match first_starting_with(ls, "H Firmware"@) {
        Some(l) => Some(trim_start_matches_spec(l, "H "@)),
        None => None,
    }
}

/// The value recorded for the product line, if any.
pub open spec fn product_info(ls: Seq<Seq<char>>) -> Option<Seq<char>> {
    match first_starting_with(ls, "H Product:"@) {
        Some(l) => Some(trim_spec(trim_start_matches_spec(l, "H Product:"@))),
        None => None,
    }
}

/// The value recorded for the blackbox version line, if any.
pub open spec fn version_info(ls: Seq<Seq<char>>) -> Option<Seq<char>> {
    match first_containing(ls, "Blackbox version"@) {
        Some(l) => Some(trim_start_matches_spec(l, "H "@)),
        None => None,
    }
}

/// `m` with `key` bound to the value when there is one.
pub open spec fn insert_opt(
    m: Map<Seq<char>, Seq<char>>,
    key: Seq<char>,
    v: Option<Seq<char>>,
) -> Map<Seq<char>, Seq<char>> {
    match v {
        Some(x) => m.insert(key, x),
        None => m,
    }
}

/// The basic information read from the lines of a header.
pub open spec fn basic_info_spec(ls: Seq<Seq<char>>) -> Map<Seq<char>, Seq<char>> {
    insert_opt(
        insert_opt(
            insert_opt(Map::empty(), "firmware"@, firmware_info(ls)),
            "product"@,
            product_info(ls),
        ),
        "blackbox_version"@,
        version_info(ls),
    )
}

/// Extract basic info from blackbox without full parsing.
///
/// Fails with `InvalidFormat("Not a valid blackbox file")` exactly when the
/// data is not recognised as a blackbox log; otherwise the map holds the
/// firmware, product and blackbox version found in the lines of the first
/// 10000 bytes.
pub fn extract_basic_info(data: &[u8]) -> (res: Result<InfoMap, BlackboxError>)
    ensures
        res is Ok <==> is_blackbox_spec(data@),
        res matches Ok(m) ==> m@ == basic_info_spec(lines_of(prefix_text(data@, 10000))),
        res matches Err(e) ==> e matches BlackboxError::InvalidFormat(msg)
            && msg@ == "Not a valid blackbox file"@,
{
    if !is_blackbox_file(data) {
        let msg = string_of(&chars_of("Not a valid blackbox file"));
        return Err(BlackboxError::InvalidFormat(msg));
    }
    let head = byte_prefix(data, 10000);
    let text = decode_text(&head);
    let ls = lines(&text);
    let ghost lv = ls.deep_view();
    let mut info = InfoMap::new();
    let h = chars_of("H ");
    match find_line_starting(&ls, &chars_of("H Firmware")) {
        Some(i) => {
            let v = trim_start_matches(&ls[i], &h);
            proof {
                crate::text::lemma_char_vec_deep_view(ls@[i as int]);
            }
            info.insert(string_of(&chars_of("firmware")), string_of(&v));
        },
        None => {},
    }
    match find_line_starting(&ls, &chars_of("H Product:")) {
        Some(i) => {
            let stripped = trim_start_matches(&ls[i], &chars_of("H Product:"));
            let v = trim(&stripped);
            proof {
                crate::text::lemma_char_vec_deep_view(ls@[i as int]);
            }
            info.insert(string_of(&chars_of("product")), string_of(&v));
        },
        None => {},
    }
    match find_line_containing(&ls, &chars_of("Blackbox version")) {
        Some(i) => {
            let v = trim_start_matches(&ls[i], &h);
            proof {
                crate::text::lemma_char_vec_deep_view(ls@[i as int]);
            }
            info.insert(string_of(&chars_of("blackbox_version")), string_of(&v));
        },
        None => {},
    }
    Ok(info)
}

} // verus!
