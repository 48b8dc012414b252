//! Frame-interval configuration from the blackbox header and Betaflight's
//! frame-presence rule (`shouldHaveFrame`).

use crate::text::{
    chars_of, contains, contains_spec, decode_text, find_char, find_char_spec, header_block,
    header_lines, lossy_decode, parse_u32, parse_u32_spec, slice_chars, starts_with,
    starts_with_spec, string_of, trim, trim_spec,
};
use vstd::prelude::*;

verus! {

/// Frame interval configuration extracted from headers (Betaflight defaults:
/// I = 32, P = 1/1).
#[derive(Debug, Clone, Copy, PartialEq, Eq, Structural)]
pub struct FrameIntervals {
    /// I-interval: how often main frames are logged (in FC loop cycles)
    pub frame_interval_i: u32,
    /// P-interval numerator: controls partial frame density
    pub frame_interval_p_num: u32,
    /// P-interval denominator: controls partial frame density
    pub frame_interval_p_denom: u32,
}

/// Whether frame `idx` is logged under intervals `(i, p_num, p_denom)`:
/// `((idx % i) + p_num - 1) % p_denom < p_num`.
pub open spec fn should_have_frame_spec(i: u32, p_num: u32, p_denom: u32, idx: u32) -> bool {
    ((idx % i) + p_num - 1) % (p_denom as int) < p_num
}

/// Whether `should_have_frame` can be evaluated for `idx` without overflow or
/// division by zero.
pub open spec fn frame_check_ok(i: u32, p_num: u32, p_denom: u32, idx: u32) -> bool {
    i > 0 && p_denom > 0 && (p_num > 0 || idx % i > 0) && (idx % i) + p_num <= u32::MAX
}

/// Number of logged frames with index in `[start, end)`.
pub open spec fn count_frames_spec(i: u32, p_num: u32, p_denom: u32, start: int, end: int) -> nat
    decreases end - start,
{
    if end <= start {
        0
    } else {
        count_frames_spec(i, p_num, p_denom, start, end - 1) + if should_have_frame_spec(
            i,
            p_num,
            p_denom,
            (end - 1) as u32,
        ) {
            1nat
        } else {
            0nat
        }
    }
}

impl Default for FrameIntervals {
    /// Betaflight's default intervals: I = 32, P = 1/1.
    fn default() -> (res: Self)
        ensures
            res.frame_interval_i == 32,
            res.frame_interval_p_num == 1,
            res.frame_interval_p_denom == 1,
    {
        FrameIntervals::new_default()
    }
}

impl FrameIntervals {
    /// Betaflight's default intervals: I = 32, P = 1/1.
    pub fn new_default() -> (res: Self)
        ensures
            res.frame_interval_i == 32,
            res.frame_interval_p_num == 1,
            res.frame_interval_p_denom == 1,
    {
        FrameIntervals { frame_interval_i: 32, frame_interval_p_num: 1, frame_interval_p_denom: 1 }
    }

    /// Betaflight's `shouldHaveFrame`: whether a frame with the given index is logged.
    pub fn should_have_frame(&self, frame_index: u32) -> (res: bool)
        requires
            frame_check_ok(
                self.frame_interval_i,
                self.frame_interval_p_num,
                self.frame_interval_p_denom,
                frame_index,
            ),
        ensures
            res == should_have_frame_spec(
                self.frame_interval_i,
                self.frame_interval_p_num,
                self.frame_interval_p_denom,
                frame_index,
            ),
    {
        ((frame_index % self.frame_interval_i) + self.frame_interval_p_num - 1)
            % self.frame_interval_p_denom < self.frame_interval_p_num
    }

    /// Count frames that should exist in `[start_frame, end_frame)`.
    pub fn count_expected_frames(&self, start_frame: u32, end_frame: u32) -> (res: u32)
        requires
            forall|idx: u32|
                start_frame <= idx < end_frame ==> #[trigger] frame_check_ok(
                    self.frame_interval_i,
                    self.frame_interval_p_num,
                    self.frame_interval_p_denom,
                    idx,
                ),
        ensures
            res == count_frames_spec(
                self.frame_interval_i,
                self.frame_interval_p_num,
                self.frame_interval_p_denom,
                start_frame as int,
                end_frame as int,
            ),
    {
        let mut count: u32 = 0;
        let mut frame_idx = start_frame;
        if end_frame <= start_frame {
            return 0;
        }
        while frame_idx < end_frame
            invariant
                start_frame <= frame_idx <= end_frame,
                forall|idx: u32|
                    start_frame <= idx < end_frame ==> #[trigger] frame_check_ok(
                        self.frame_interval_i,
                        self.frame_interval_p_num,
                        self.frame_interval_p_denom,
                        idx,
                    ),
                count == count_frames_spec(
                    self.frame_interval_i,
                    self.frame_interval_p_num,
                    self.frame_interval_p_denom,
                    start_frame as int,
                    frame_idx as int,
                ),
                count <= frame_idx - start_frame,
            decreases end_frame - frame_idx,
        {
            assert(frame_check_ok(
                self.frame_interval_i,
                self.frame_interval_p_num,
                self.frame_interval_p_denom,
                frame_idx,
            ));
            if self.should_have_frame(frame_idx) {
                count = count + 1;
            }
            frame_idx = frame_idx + 1;
        }
        count
    }
}

/// With at least as many logged frames per P-group as the group size, every
/// frame is logged.
pub proof fn lemma_full_p_interval_logs_every_frame(i: u32, p_num: u32, p_denom: u32, idx: u32)
    requires
        frame_check_ok(i, p_num, p_denom, idx),
        p_num >= p_denom,
    ensures
        should_have_frame_spec(i, p_num, p_denom, idx),
{
    let x: int = (idx % i) + p_num - 1;
    assert(x % (p_denom as int) < p_denom) by (nonlinear_arith)
        requires
            p_denom > 0,
    ;
}

/// The P rule on one frame: the first frame of each I-cycle is logged
/// whenever P is not zero; with P = 1/d exactly every d-th frame of the
/// cycle (counting from its first) is logged; with P = 0 no frame but the
/// cycle's first is.
pub proof fn lemma_p_interval_rule(i: u32, p_num: u32, p_denom: u32, idx: u32)
    requires
        frame_check_ok(i, p_num, p_denom, idx),
    ensures
        p_num > 0 && idx % i == 0 ==> should_have_frame_spec(i, p_num, p_denom, idx),
        p_num == 1 ==> (should_have_frame_spec(i, p_num, p_denom, idx) <==> ((idx % i) as int) % (
        p_denom as int) == 0),
        p_num == 0 ==> !should_have_frame_spec(i, p_num, p_denom, idx),
{
    let x: int = (idx % i) + p_num - 1;
    if p_num > 0 && idx % i == 0 {
        assert(x % (p_denom as int) <= x) by (nonlinear_arith)
            requires
                p_denom > 0,
                x >= 0,
        ;
    }
    if p_num == 0 {
        assert(x % (p_denom as int) >= 0) by (nonlinear_arith)
            requires
                p_denom > 0,
        ;
    }
}

/// With P = n/d, n >= d, every frame of a range is logged: the count is the
/// range's length.
pub proof fn lemma_full_p_interval_count(i: u32, p_num: u32, p_denom: u32, start: int, end: int)
    requires
        0 <= start,
        end <= u32::MAX + 1,
        p_num >= p_denom,
        forall|idx: u32| start <= idx < end ==> #[trigger] frame_check_ok(i, p_num, p_denom, idx),
    ensures
        count_frames_spec(i, p_num, p_denom, start, end) == if end <= start {
            0
        } else {
            end - start
        },
    decreases end - start,
{
    if end > start {
        lemma_full_p_interval_count(i, p_num, p_denom, start, end - 1);
        assert(frame_check_ok(i, p_num, p_denom, (end - 1) as u32));
        lemma_full_p_interval_logs_every_frame(i, p_num, p_denom, (end - 1) as u32);
    }
}

// ---------------------------------------------------------------------------
// Header values
// ---------------------------------------------------------------------------

/// The trimmed text after the first `':'` of a header, if it has one.
pub open spec fn value_after_colon(h: Seq<char>) -> Option<Seq<char>> {
    match find_char_spec(h, ':') {
        Some(i) => Some(trim_spec(h.skip(i + 1))),
        None => None,
    }
}

/// I interval value of a header (`"I interval:128"` gives 128); zero is rejected.
pub open spec fn parse_i_interval_spec(h: Seq<char>) -> Option<u32> {
    match value_after_colon(h) {
        Some(v) => match parse_u32_spec(v) {
            Some(n) => if n > 0 {
                Some(n)
            } else {
                None
            },
            None => None,
        },
        None => None,
    }
}

/// P interval value of a header: `"P interval:1/4"` gives (1, 4) and
/// `"P interval:4"` gives (1, 4); zero parts are rejected.
pub open spec fn parse_p_interval_spec(h: Seq<char>) -> Option<(u32, u32)> {
    match value_after_colon(h) {
        Some(v) => match find_char_spec(v, '/') {
            Some(s) => match (parse_u32_spec(v.take(s)), parse_u32_spec(v.skip(s + 1))) {
                (Some(num), Some(denom)) => if num > 0 && denom > 0 {
                    Some((num, denom))
                } else {
                    None
                },
                _ => None,
            },
            None => match parse_u32_spec(v) {
                Some(denom) => if denom > 0 {
                    Some((1u32, denom))
                } else {
                    None
                },
                None => None,
            },
        },
        None => None,
    }
}

/// The text after the first `':'` of `h`, trimmed.
pub fn value_after_colon_exec(h: &[char]) -> (res: Option<Vec<char>>)
    ensures
        match res {
            Some(v) => value_after_colon(h@) == Some(v@),
            None => value_after_colon(h@) is None,
        },
{
    let n = h.len();
    match find_char(h, ':') {
        Some(i) => {
            let rest = slice_chars(h, i + 1, n);
            assert(rest@ =~= h@.skip(i + 1));
            Some(trim(&rest))
        },
        None => None,
    }
}

/// Parse I interval value from header characters (in loop cycles).
pub fn parse_i_interval_chars(h: &[char]) -> (res: Option<u32>)
    ensures
        res == parse_i_interval_spec(h@),
{
    match value_after_colon_exec(h) {
        Some(v) => match parse_u32(&v) {
            Some(n) => if n > 0 {
                Some(n)
            } else {
                None
            },
            None => None,
        },
        None => None,
    }
}

/// Parse I interval value from header (in loop cycles).
/// Format: `"I interval:128"` -> 128 cycles.
pub fn parse_i_interval_value(header: &str) -> (res: Option<u32>)
    ensures
        res == parse_i_interval_spec(header@),
{
    parse_i_interval_chars(&chars_of(header))
}

/// Parse P interval value from header characters.
pub fn parse_p_interval_chars(h: &[char]) -> (res: Option<(u32, u32)>)
    ensures
        res == parse_p_interval_spec(h@),
{
    match value_after_colon_exec(h) {
        Some(v) => match find_char(&v, '/') {
            Some(s) => {
                let num_chars = slice_chars(&v, 0, s);
                let denom_chars = slice_chars(&v, s + 1, v.len());
                assert(num_chars@ =~= v@.take(s as int));
                assert(denom_chars@ =~= v@.skip(s + 1));
                match (parse_u32(&num_chars), parse_u32(&denom_chars)) {
                    (Some(num), Some(denom)) => if num > 0 && denom > 0 {
                        Some((num, denom))
                    } else {
                        None
                    },
                    _ => None,
                }
            },
            None => match parse_u32(&v) {
                Some(denom) => if denom > 0 {
                    Some((1u32, denom))
                } else {
                    None
                },
                None => None,
            },
        },
        None => None,
    }
}

/// Parse P interval value from header (partial frame configuration).
/// Format: `"P interval:1/4"` -> (1, 4) or `"P interval:4"` -> (1, 4).
pub fn parse_p_interval_value(header: &str) -> (res: Option<(u32, u32)>)
    ensures
        res == parse_p_interval_spec(header@),
{
    parse_p_interval_chars(&chars_of(header))
}

// ---------------------------------------------------------------------------
// Header scans
// ---------------------------------------------------------------------------

/// A header line without its `"H "` marker.
pub open spec fn header_content(line: Seq<char>) -> Seq<char> {
    line.skip(2)
}

/// Scan state: (I, P num, P denom, I found, P found, looptime values).
pub type RateScanView = (u32, u32, u32, bool, bool, Seq<Seq<char>>);

/// One header line's effect on the rate scan.
pub open spec fn rate_step(st: RateScanView, hc: Seq<char>) -> RateScanView {
    let st1 = if contains_spec(hc, "looptime:"@) && value_after_colon(hc) is Some {
        (st.0, st.1, st.2, st.3, st.4, st.5.push(value_after_colon(hc)->0))
    } else {
        st
    };
    let st2 = if contains_spec(hc, "I interval:"@) && parse_i_interval_spec(hc) is Some {
        (parse_i_interval_spec(hc)->0, st1.1, st1.2, true, st1.4, st1.5)
    } else {
        st1
    };
    if contains_spec(hc, "P interval:"@) && parse_p_interval_spec(hc) is Some {
        let pv = parse_p_interval_spec(hc)->0;
        (st2.0, pv.0, pv.1, st2.3, true, st2.5)
    } else {
        st2
    }
}

/// The rate scan over a run of header lines.
pub open spec fn rate_scan(ls: Seq<Seq<char>>) -> RateScanView
    decreases ls.len(),
{
    if ls.len() == 0 {
        (32u32, 1u32, 1u32, false, false, Seq::empty())
    } else {
        rate_step(rate_scan(ls.drop_last()), header_content(ls.last()))
    }
}

/// What the rate-related headers of a log say.
#[derive(Debug, Clone)]
pub struct RateHeaders {
    /// I and P intervals (defaults where the headers do not say)
    pub intervals: FrameIntervals,
    /// Whether an I interval or a P interval header was found
    pub found_intervals: bool,
    /// The values of the `looptime:` headers, in order, as text
    pub looptime_values: Vec<String>,
}

/// Whether `r` holds what the scan `st` found.
pub open spec fn rate_headers_match(r: RateHeaders, st: RateScanView) -> bool {
    &&& r.intervals.frame_interval_i == st.0
    &&& r.intervals.frame_interval_p_num == st.1
    &&& r.intervals.frame_interval_p_denom == st.2
    &&& r.found_intervals == (st.3 || st.4)
    &&& r.looptime_values@.len() == st.5.len()
    &&& forall|k: int| 0 <= k < st.5.len() ==> #[trigger] r.looptime_values@[k]@ == st.5[k]
}

/// Frame-interval configuration and looptime values from the header block of
/// raw blackbox data. The I interval is at least 1 whenever found.
pub fn extract_frame_intervals_from_raw_data(data: &[u8]) -> (res: RateHeaders)
    ensures
        rate_headers_match(res, rate_scan(header_lines(lossy_decode(data@)))),
{
    let text = decode_text(data);
    let block = header_block(&text);
    let ghost hl = block.deep_view();
    let looptime = chars_of("looptime:");
    let i_interval = chars_of("I interval:");
    let p_interval = chars_of("P interval:");
    let mut i_val: u32 = 32;
    let mut p_num: u32 = 1;
    let mut p_denom: u32 = 1;
    let mut found_i = false;
    let mut found_p = false;
    let mut looptimes: Vec<String> = Vec::new();
    let mut k: usize = 0;
    while k < block.len()
        invariant
            0 <= k <= block@.len(),
            hl == block.deep_view(),
            hl == header_lines(text@),
            text@ == lossy_decode(data@),
            looptime@ == "looptime:"@,
            i_interval@ == "I interval:"@,
            p_interval@ == "P interval:"@,
            ({
                let st = rate_scan(hl.take(k as int));
                &&& i_val == st.0
                &&& p_num == st.1
                &&& p_denom == st.2
                &&& found_i == st.3
                &&& found_p == st.4
                &&& looptimes@.len() == st.5.len()
                &&& forall|j: int| 0 <= j < st.5.len() ==> #[trigger] looptimes@[j]@ == st.5[j]
            }),
        decreases block@.len() - k,
    {
        let line = &block[k];
        proof {
            crate::text::lemma_char_vec_deep_view(*line);
            crate::text::lemma_marked_prefix_starts(
                crate::text::lines_of(text@),
                seq!['H', ' '],
            );
            assert(starts_with_spec(hl[k as int], seq!['H', ' ']));
            assert(hl.take(k + 1).drop_last() =~= hl.take(k as int));
        }
        let hc = if line.len() >= 2 {
            slice_chars(line, 2, line.len())
        } else {
            Vec::new()
        };
        assert(hc@ =~= header_content(hl[k as int]));
        let ghost before = looptimes@;
        if contains(&hc, &looptime) {
            match value_after_colon_exec(&hc) {
                Some(v) => {
                    looptimes.push(string_of(&v));
                },
                None => {},
            }
        }
        if contains(&hc, &i_interval) {
            match parse_i_interval_chars(&hc) {
                Some(n) => {
                    i_val = if n > 1 {
                        n
                    } else {
                        1
                    };
                    found_i = true;
                },
                None => {},
            }
        }
        if contains(&hc, &p_interval) {
            match parse_p_interval_chars(&hc) {
                Some((a, b)) => {
                    p_num = a;
                    p_denom = b;
                    found_p = true;
                },
                None => {},
            }
        }
        k = k + 1;
    }
    assert(hl.take(block@.len() as int) =~= hl);
    RateHeaders {
        intervals: FrameIntervals {
            frame_interval_i: i_val,
            frame_interval_p_num: p_num,
            frame_interval_p_denom: p_denom,
        },
        found_intervals: found_i || found_p,
        looptime_values: looptimes,
    }
}

/// First-match scan: the value of the first header whose content contains `"pid_rate:"`.
pub open spec fn pid_rate_scan(ls: Seq<Seq<char>>) -> Option<Seq<char>>
    decreases ls.len(),
{
    if ls.len() == 0 {
        None
    } else if contains_spec(header_content(ls[0]), "pid_rate:"@) {
        value_after_colon(header_content(ls[0]))
    } else {
        pid_rate_scan(ls.drop_first())
    }
}

/// The value text of the first `pid_rate:` header, trimmed, if there is one.
/// The rate itself is read from this text by the caller.
pub fn extract_direct_pid_rate_text(data: &[u8]) -> (res: Option<String>)
    ensures
        match res {
            Some(s) => pid_rate_scan(header_lines(lossy_decode(data@))) == Some(s@),
            None => pid_rate_scan(header_lines(lossy_decode(data@))) is None,
        },
{
    let text = decode_text(data);
    let block = header_block(&text);
    let ghost hl = block.deep_view();
    let pattern = chars_of("pid_rate:");
    let mut k: usize = 0;
    assert(hl.skip(0) =~= hl);
    while k < block.len()
        invariant
            0 <= k <= block@.len(),
            hl == block.deep_view(),
            hl == header_lines(text@),
            text@ == lossy_decode(data@),
            pattern@ == "pid_rate:"@,
            pid_rate_scan(hl) == pid_rate_scan(hl.skip(k as int)),
        decreases block@.len() - k,
    {
        let line = &block[k];
        proof {
            crate::text::lemma_char_vec_deep_view(*line);
            crate::text::lemma_marked_prefix_starts(
                crate::text::lines_of(text@),
                seq!['H', ' '],
            );
            assert(starts_with_spec(hl[k as int], seq!['H', ' ']));
            assert(hl.skip(k as int)[0] == hl[k as int]);
            assert(hl.skip(k as int).drop_first() =~= hl.skip(k + 1));
        }
        let hc = if line.len() >= 2 {
            slice_chars(line, 2, line.len())
        } else {
            Vec::new()
        };
        assert(hc@ =~= header_content(hl[k as int]));
        if contains(&hc, &pattern) {
            return match value_after_colon_exec(&hc) {
                Some(v) => Some(string_of(&v)),
                None => None,
            };
        }
        k = k + 1;
    }
    None
}

/// `pid_process_denom` value of one header content, if it is a positive number.
pub open spec fn pid_denom_of(hc: Seq<char>) -> Option<u32> {
    if starts_with_spec(hc, "pid_process_denom:"@) {
        match value_after_colon(hc) {
            Some(v) => match parse_u32_spec(v) {
                Some(d) => if d > 0 {
                    Some(d)
                } else {
                    None
                },
                None => None,
            },
            None => None,
        }
    } else {
        None
    }
}

/// The first header that gives a positive `pid_process_denom`.
pub open spec fn pid_denom_scan(ls: Seq<Seq<char>>) -> Option<u32>
    decreases ls.len(),
{
    if ls.len() == 0 {
        None
    } else if pid_denom_of(header_content(ls[0])) is Some {
        pid_denom_of(header_content(ls[0]))
    } else {
        pid_denom_scan(ls.drop_first())
    }
}

/// Extract `pid_process_denom` from headers (affects loopIteration frequency).
/// Format: `"pid_process_denom:2"` -> 2.
pub fn extract_pid_process_denom(data: &[u8]) -> (res: Option<u32>)
    ensures
        res == pid_denom_scan(header_lines(lossy_decode(data@))),
{
    let text = decode_text(data);
    let block = header_block(&text);
    let ghost hl = block.deep_view();
    let prefix = chars_of("pid_process_denom:");
    let mut k: usize = 0;
    assert(hl.skip(0) =~= hl);
    while k < block.len()
        invariant
            0 <= k <= block@.len(),
            hl == block.deep_view(),
            hl == header_lines(text@),
            text@ == lossy_decode(data@),
            prefix@ == "pid_process_denom:"@,
            pid_denom_scan(hl) == pid_denom_scan(hl.skip(k as int)),
        decreases block@.len() - k,
    {
        let line = &block[k];
        proof {
            crate::text::lemma_char_vec_deep_view(*line);
            crate::text::lemma_marked_prefix_starts(
                crate::text::lines_of(text@),
                seq!['H', ' '],
            );
            assert(starts_with_spec(hl[k as int], seq!['H', ' ']));
            assert(hl.skip(k as int)[0] == hl[k as int]);
            assert(hl.skip(k as int).drop_first() =~= hl.skip(k + 1));
        }
        let hc = if line.len() >= 2 {
            slice_chars(line, 2, line.len())
        } else {
            Vec::new()
        };
        assert(hc@ =~= header_content(hl[k as int]));
        if starts_with(&hc, &prefix) {
            match value_after_colon_exec(&hc) {
                Some(v) => match parse_u32(&v) {
                    Some(d) => {
                        if d > 0 {
                            return Some(d);
                        }
                    },
                    None => {},
                },
                None => {},
            }
        }
        k = k + 1;
    }
    None
}

} // verus!
