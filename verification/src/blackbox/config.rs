//! Flight-controller facts read from the configuration headers.

use crate::domain::FlightController;
use crate::info_map::InfoMap;
use crate::text::{chars_of, contains, contains_spec, is_whitespace, is_ws, slice_chars, string_of, trim_end_spec};
use vstd::prelude::*;

verus! {

/// Index just past the last whitespace character of `t` (0 when none).
pub open spec fn word_start(t: Seq<char>) -> int
    decreases t.len(),
{
    if t.len() == 0 {
        0
    } else if is_ws(t.last()) {
        t.len() as int
    } else {
        word_start(t.drop_last())
    }
}

/// The last whitespace-separated word of `s` (`split_whitespace().last()`).
pub open spec fn last_word(s: Seq<char>) -> Option<Seq<char>> {
    let t = trim_end_spec(s);
    if t.len() == 0 {
        None
    } else {
        Some(t.skip(word_start(t)))
    }
}

/// Trimming the end keeps a prefix, drops only whitespace, and leaves a
/// non-whitespace last character.
proof fn lemma_trim_end_prefix(s: Seq<char>)
    ensures
        trim_end_spec(s).len() <= s.len(),
        trim_end_spec(s) == s.take(trim_end_spec(s).len() as int),
        forall|k: int| trim_end_spec(s).len() <= k < s.len() ==> is_ws(#[trigger] s[k]),
        trim_end_spec(s).len() > 0 ==> !is_ws(trim_end_spec(s).last()),
    decreases s.len(),
{
    if s.len() > 0 && is_ws(s.last()) {
        lemma_trim_end_prefix(s.drop_last());
        let t = trim_end_spec(s.drop_last());
        assert(s.drop_last().take(t.len() as int) =~= s.take(t.len() as int));
        assert forall|k: int| t.len() <= k < s.len() implies is_ws(#[trigger] s[k]) by {
            if k < s.len() - 1 {
                assert(s.drop_last()[k] == s[k]);
            }
        }
    } else {
        assert(s.take(s.len() as int) =~= s);
    }
}

/// The start of the last word: no whitespace from there on, whitespace
/// just before it.
proof fn lemma_word_start_bounds(t: Seq<char>)
    ensures
        0 <= word_start(t) <= t.len(),
        forall|k: int| word_start(t) <= k < t.len() ==> !is_ws(#[trigger] t[k]),
        word_start(t) > 0 ==> is_ws(t[word_start(t) - 1]),
    decreases t.len(),
{
    if t.len() > 0 && !is_ws(t.last()) {
        lemma_word_start_bounds(t.drop_last());
        assert forall|k: int| word_start(t) <= k < t.len() implies !is_ws(#[trigger] t[k]) by {
            if k < t.len() - 1 {
                assert(t.drop_last()[k] == t[k]);
            }
        }
        if word_start(t) > 0 {
            assert(t.drop_last()[word_start(t) - 1] == t[word_start(t) - 1]);
        }
    }
}

/// The last word is what `split_whitespace().last()` gives: none exactly
/// when the text is all whitespace; otherwise a non-empty run of
/// non-whitespace characters of the text, preceded by whitespace or the
/// start, and followed only by whitespace.
pub proof fn lemma_last_word(s: Seq<char>)
    ensures
        last_word(s) is None <==> forall|k: int| 0 <= k < s.len() ==> is_ws(#[trigger] s[k]),
        last_word(s) matches Some(w) ==> w.len() > 0 && (forall|k: int|
            0 <= k < w.len() ==> !is_ws(#[trigger] w[k])) && exists|a: int, b: int|
            0 <= a < b <= s.len() && #[trigger] s.subrange(a, b) == w && (a == 0 || is_ws(s[a - 1]))
                && forall|k: int| b <= k < s.len() ==> is_ws(#[trigger] s[k]),
{
    lemma_trim_end_prefix(s);
    let t = trim_end_spec(s);
    if t.len() == 0 {
        assert forall|k: int| 0 <= k < s.len() implies is_ws(#[trigger] s[k]) by {}
    } else {
        lemma_word_start_bounds(t);
        let a = word_start(t);
        let b = t.len() as int;
        assert(!is_ws(t[b - 1]));
        assert(a < b);
        let w = t.skip(a);
        assert(s.subrange(a, b) =~= w) by {
            assert forall|k: int| 0 <= k < b - a implies s.subrange(a, b)[k] == w[k] by {
                assert(t[a + k] == s[a + k]);
            }
        }
        assert forall|k: int| 0 <= k < w.len() implies !is_ws(#[trigger] w[k]) by {
            assert(w[k] == t[a + k]);
        }
        if a > 0 {
            assert(t[a - 1] == s[a - 1]);
        }
        assert(!is_ws(s[b - 1])) by {
            assert(t[b - 1] == s[b - 1]);
        }
    }
}

/// The last whitespace-separated word of `s`.
pub fn last_word_of(s: &[char]) -> (res: Option<Vec<char>>)
    ensures
        match res {
            Some(w) => last_word(s@) == Some(w@),
            None => last_word(s@) is None,
        },
{
    let mut hi: usize = s.len();
    assert(s@.take(s@.len() as int) =~= s@);
    while hi > 0 && is_whitespace(s[hi - 1])
        invariant
            0 <= hi <= s@.len(),
            trim_end_spec(s@) == trim_end_spec(s@.take(hi as int)),
        decreases hi,
    {
        assert(s@.take(hi as int).drop_last() =~= s@.take(hi - 1));
        hi = hi - 1;
    }
    let ghost t = s@.take(hi as int);
    assert(trim_end_spec(t) == t);
    if hi == 0 {
        return None;
    }
    let mut lo: usize = hi;
    while lo > 0 && !is_whitespace(s[lo - 1])
        invariant
            0 <= lo <= hi,
            hi <= s@.len(),
            t == s@.take(hi as int),
            word_start(t) == word_start(s@.take(lo as int)),
        decreases lo,
    {
        assert(s@.take(lo as int).drop_last() =~= s@.take(lo - 1));
        lo = lo - 1;
    }
    proof {
        if lo > 0 {
            assert(s@.take(lo as int).last() == s@[lo - 1]);
        }
        assert(word_start(s@.take(lo as int)) == lo);
        assert(t.skip(lo as int) =~= s@.subrange(lo as int, hi as int));
    }
    Some(slice_chars(s, lo, hi))
}

/// The firmware family a revision string names.
pub open spec fn firmware_family(revision: Seq<char>) -> Seq<char> {
    if contains_spec(revision, "Betaflight"@) {
        "Betaflight"@
    } else if contains_spec(revision, "INAV"@) {
        "INAV"@
    } else if contains_spec(revision, "ArduPilot"@) {
        "ArduPilot"@
    } else {
        "Unknown"@
    }
}

/// The flight controller a header map describes: the firmware family and
/// version (last word) of `Firmware revision`, the board from `Board
/// information` or else `target`, each `Unknown` when missing.
pub open spec fn flight_controller_spec(headers: Map<Seq<char>, Seq<char>>) -> (
    Seq<char>,
    Seq<char>,
    Seq<char>,
) {
    let rev = "Firmware revision"@;
    let firmware = if headers.contains_key(rev) {
        firmware_family(headers[rev])
    } else {
        "Unknown"@
    };
    let version = if headers.contains_key(rev) && last_word(headers[rev]) is Some {
        last_word(headers[rev])->Some_0
    } else {
        "Unknown"@
    };
    let target = if headers.contains_key("Board information"@) {
        headers["Board information"@]
    } else if headers.contains_key("target"@) {
        headers["target"@]
    } else {
        "Unknown"@
    };
    (firmware, version, target)
}

/// The firmware family named by the `Firmware revision` header: Betaflight
/// when the revision mentions it, else INAV, else ArduPilot, and Unknown
/// exactly when the header is missing or mentions none of the three. The
/// version is the revision's last word and the board comes from `Board
/// information`, else `target`.
pub proof fn lemma_flight_controller_facts(headers: Map<Seq<char>, Seq<char>>)
    ensures
        ({
            let (fw, version, target) = flight_controller_spec(headers);
            let rev = "Firmware revision"@;
            let present = headers.contains_key(rev);
            let r = headers[rev];
            &&& present && contains_spec(r, "Betaflight"@) ==> fw == "Betaflight"@
            &&& present && !contains_spec(r, "Betaflight"@) && contains_spec(r, "INAV"@) ==> fw
                == "INAV"@
            &&& present && !contains_spec(r, "Betaflight"@) && !contains_spec(r, "INAV"@)
                && contains_spec(r, "ArduPilot"@) ==> fw == "ArduPilot"@
            &&& fw == "Unknown"@ <==> !present || (!contains_spec(r, "Betaflight"@) && !contains_spec(
                r,
                "INAV"@,
            ) && !contains_spec(r, "ArduPilot"@))
            &&& (present && last_word(r) is Some) ==> version == last_word(r)->Some_0
            &&& headers.contains_key("Board information"@) ==> target == headers["Board information"@]
            &&& !headers.contains_key("Board information"@) && headers.contains_key("target"@)
                ==> target == headers["target"@]
        }),
{
    reveal_strlit("Betaflight");
    reveal_strlit("INAV");
    reveal_strlit("ArduPilot");
    reveal_strlit("Unknown");
    assert("Betaflight"@[0] != "Unknown"@[0]);
    assert("INAV"@[0] != "Unknown"@[0]);
    assert("ArduPilot"@[0] != "Unknown"@[0]);
}

/// Flight-controller information from the configuration headers;
/// `loop_rate` is the sample rate the caller derived, in whole hertz.
pub fn extract_flight_controller_info(headers: &InfoMap, loop_rate: u32) -> (res: FlightController)
    ensures
        (res.firmware@, res.version@, res.target@) == flight_controller_spec(headers@),
        res.loop_rate == loop_rate,
{
    let (firmware, version) = match headers.get("Firmware revision") {
        Some(rev) => {
            let r = chars_of(rev.as_str());
            let family = if contains(&r, &chars_of("Betaflight")) {
                "Betaflight".to_string()
            } else if contains(&r, &chars_of("INAV")) {
                "INAV".to_string()
            } else if contains(&r, &chars_of("ArduPilot")) {
                "ArduPilot".to_string()
            } else {
                "Unknown".to_string()
            };
            let version = match last_word_of(&r) {
                Some(w) => string_of(&w),
                None => "Unknown".to_string(),
            };
            (family, version)
        },
        None => ("Unknown".to_string(), "Unknown".to_string()),
    };
    let target = match headers.get("Board information") {
        Some(b) => b.clone(),
        None => match headers.get("target") {
            Some(t) => t.clone(),
            None => "Unknown".to_string(),
        },
    };
    FlightController { firmware, version, target, loop_rate }
}

} // verus!
