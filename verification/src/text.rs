//! Character-level text primitives used by the header scanners.
//!
//! Text is handled as a sequence of `char`s. The specifications follow the
//! behaviour of the corresponding `str` methods: `lines`, `trim`,
//! `starts_with`, `contains`, `find`, `trim_start_matches` and
//! `u32::from_str`.

use vstd::prelude::*;
use vstd::utf8::{decode_utf8, valid_utf8};

verus! {

/// Unicode `White_Space` characters, as recognised by `char::is_whitespace`.
pub open spec fn is_ws(c: char) -> bool {
    let u = c as u32;
    ||| 0x09 <= u <= 0x0D
    ||| u == 0x20
    ||| u == 0x85
    ||| u == 0xA0
    ||| u == 0x1680
    ||| 0x2000 <= u <= 0x200A
    ||| u == 0x2028
    ||| u == 0x2029
    ||| u == 0x202F
    ||| u == 0x205F
    ||| u == 0x3000
}

/// `s` with leading whitespace removed.
pub open spec fn trim_start_spec(s: Seq<char>) -> Seq<char>
    decreases s.len(),
{
    if s.len() > 0 && is_ws(s[0]) {
        trim_start_spec(s.drop_first())
    } else {
        s
    }
}

/// `s` with trailing whitespace removed.
pub open spec fn trim_end_spec(s: Seq<char>) -> Seq<char>
    decreases s.len(),
{
    if s.len() > 0 && is_ws(s.last()) {
        trim_end_spec(s.drop_last())
    } else {
        s
    }
}

/// `s` with whitespace removed at both ends (`str::trim`).
pub open spec fn trim_spec(s: Seq<char>) -> Seq<char> {
    trim_end_spec(trim_start_spec(s))
}

/// Whether `s` begins with `p`.
pub open spec fn starts_with_spec(s: Seq<char>, p: Seq<char>) -> bool {
    p.len() <= s.len() && s.take(p.len() as int) =~= p
}

/// Whether `p` occurs in `s` at position `i`.
pub open spec fn occurs_at(s: Seq<char>, p: Seq<char>, i: int) -> bool {
    0 <= i && i + p.len() <= s.len() && s.subrange(i, i + p.len()) =~= p
}

/// Whether `p` occurs anywhere in `s` (`str::contains`).
pub open spec fn contains_spec(s: Seq<char>, p: Seq<char>) -> bool {
    exists|i: int| occurs_at(s, p, i)
}

/// Index of the first occurrence of `c` in `s` (`str::find` with a `char`).
pub open spec fn find_char_spec(s: Seq<char>, c: char) -> Option<int>
    decreases s.len(),
{
    if s.len() == 0 {
        None
    } else if s[0] == c {
        Some(0)
    } else {
        match find_char_spec(s.drop_first(), c) {
            Some(i) => Some(i + 1),
            None => None,
        }
    }
}

/// Repeatedly strips `p` from the front of `s` (`str::trim_start_matches`).
pub open spec fn trim_start_matches_spec(s: Seq<char>, p: Seq<char>) -> Seq<char>
    decreases s.len(),
{
    if p.len() > 0 && starts_with_spec(s, p) {
        trim_start_matches_spec(s.skip(p.len() as int), p)
    } else {
        s
    }
}

/// A line as handed out by `str::lines`: a trailing `'\r'` is dropped when the
/// line was terminated by `'\n'`.
pub open spec fn strip_cr(line: Seq<char>) -> Seq<char> {
    if line.len() > 0 && line.last() == '\r' {
        line.drop_last()
    } else {
        line
    }
}

/// The lines of `s`, as `str::lines` yields them.
pub open spec fn lines_of(s: Seq<char>) -> Seq<Seq<char>>
    decreases s.len(),
{
    if s.len() == 0 {
        Seq::empty()
    } else {
        match find_char_spec(s, '\n') {
            Some(i) => if 0 <= i < s.len() {
                seq![strip_cr(s.take(i))] + lines_of(s.skip(i + 1))
            } else {
                Seq::empty()
            },
            None => seq![s],
        }
    }
}

/// Whether `c` is an ASCII decimal digit.
pub open spec fn is_digit(c: char) -> bool {
    '0' <= c && c <= '9'
}

/// The decimal value of a digit string.
pub open spec fn digits_value(s: Seq<char>) -> nat
    decreases s.len(),
{
    if s.len() == 0 {
        0
    } else {
        digits_value(s.drop_last()) * 10 + ((s.last() as u32) - ('0' as u32)) as nat
    }
}

/// Whether every character of `s` is a decimal digit.
pub open spec fn all_digits(s: Seq<char>) -> bool {
    forall|i: int| 0 <= i < s.len() ==> is_digit(#[trigger] s[i])
}

/// The digits part of an unsigned number: an optional leading `'+'` removed.
pub open spec fn unsigned_body(s: Seq<char>) -> Seq<char> {
    if s.len() > 0 && s[0] == '+' {
        s.drop_first()
    } else {
        s
    }
}

/// What `u32::from_str` gives for `s`: an optional `'+'` followed by at least
/// one decimal digit, with a value that fits in 32 bits.
pub open spec fn parse_u32_spec(s: Seq<char>) -> Option<u32> {
    let body = unsigned_body(s);
    if body.len() > 0 && all_digits(body) && digits_value(body) <= u32::MAX {
        Some(digits_value(body) as u32)
    } else {
        None
    }
}

// ---------------------------------------------------------------------------
// Lemmas
// ---------------------------------------------------------------------------

/// The first occurrence found by a left-to-right scan is what `find_char_spec` gives.
pub proof fn lemma_find_char_at(s: Seq<char>, c: char, i: int)
    requires
        0 <= i < s.len(),
        s[i] == c,
        forall|k: int| 0 <= k < i ==> s[k] != c,
    ensures
        find_char_spec(s, c) == Some(i),
    decreases i,
{
    if i > 0 {
        lemma_find_char_at(s.drop_first(), c, i - 1);
    }
}

/// A scan that finds no occurrence agrees with `find_char_spec`.
pub proof fn lemma_find_char_none(s: Seq<char>, c: char)
    requires
        forall|k: int| 0 <= k < s.len() ==> s[k] != c,
    ensures
        find_char_spec(s, c) is None,
    decreases s.len(),
{
    if s.len() > 0 {
        lemma_find_char_none(s.drop_first(), c);
    }
}

/// `digits_value` is bounded by the number of digits.
pub proof fn lemma_digits_value_push(s: Seq<char>, d: char)
    ensures
        digits_value(s.push(d)) == digits_value(s) * 10 + ((d as u32) - ('0' as u32)) as nat,
{
    assert(s.push(d).drop_last() =~= s);
}

// ---------------------------------------------------------------------------
// Executable primitives
// ---------------------------------------------------------------------------

/// Characters of a string slice.
pub fn chars_of(s: &str) -> (res: Vec<char>)
    ensures
        res@ == s@,
{
    let mut res: Vec<char> = Vec::new();
    for c in it: s.chars()
        invariant
            res@ == it.seq().take(it.index() as int),
    {
        res.push(c);
    }
    res
}

/// Copy of `s[lo..hi]`.
pub fn slice_chars(s: &[char], lo: usize, hi: usize) -> (res: Vec<char>)
    requires
        lo <= hi <= s@.len(),
    ensures
        res@ == s@.subrange(lo as int, hi as int),
{
    let mut res: Vec<char> = Vec::new();
    let mut i = lo;
    while i < hi
        invariant
            lo <= i <= hi <= s@.len(),
            res@ =~= s@.subrange(lo as int, i as int),
        decreases hi - i,
    {
        res.push(s[i]);
        i = i + 1;
    }
    res
}

/// Whether `p` occurs in `s` at position `at`.
pub fn occurs_at_exec(s: &[char], p: &[char], at: usize) -> (res: bool)
    ensures
        res == occurs_at(s@, p@, at as int),
{
    if at > s.len() || p.len() > s.len() - at {
        return false;
    }
    let mut k: usize = 0;
    while k < p.len()
        invariant
            at + p@.len() <= s@.len(),
            at + p.len() <= s.len(),
            0 <= k <= p@.len(),
            forall|j: int| 0 <= j < k ==> s@[at + j] == p@[j],
        decreases p@.len() - k,
    {
        if s[at + k] != p[k] {
            assert(s@.subrange(at as int, at + p@.len())[k as int] != p@[k as int]);
            return false;
        }
        k = k + 1;
    }
    assert(s@.subrange(at as int, at + p@.len()) =~= p@);
    true
}

/// `str::starts_with`.
pub fn starts_with(s: &[char], p: &[char]) -> (res: bool)
    ensures
        res == starts_with_spec(s@, p@),
{
    let r = occurs_at_exec(s, p, 0);
    proof {
        if p@.len() <= s@.len() {
            assert(s@.subrange(0, p@.len() as int) =~= s@.take(p@.len() as int));
        }
    }
    r
}

/// Equality of two character sequences.
pub fn same_chars(a: &[char], b: &[char]) -> (res: bool)
    ensures
        res == (a@ == b@),
{
    if a.len() != b.len() {
        return false;
    }
    let r = occurs_at_exec(a, b, 0);
    proof {
        if r {
            assert(a@.subrange(0, b@.len() as int) =~= a@);
        } else {
            assert(a@.subrange(0, b@.len() as int) =~= a@);
        }
    }
    r
}

/// `str::contains`.
pub fn contains(s: &[char], p: &[char]) -> (res: bool)
    ensures
        res == contains_spec(s@, p@),
{
    if p.len() > s.len() {
        assert forall|i: int| !occurs_at(s@, p@, i) by {}
        return false;
    }
    let mut i: usize = 0;
    let last = s.len() - p.len();
    loop
        invariant
            last == s@.len() - p@.len(),
            0 <= i <= last,
            forall|j: int| 0 <= j < i ==> !occurs_at(s@, p@, j),
        ensures
            forall|j: int| 0 <= j <= last ==> !occurs_at(s@, p@, j),
        decreases last - i,
    {
        if occurs_at_exec(s, p, i) {
            return true;
        }
        if i == last {
            break;
        }
        i = i + 1;
    }
    assert forall|j: int| !occurs_at(s@, p@, j) by {
        if 0 <= j && j + p@.len() <= s@.len() {
            assert(j <= last);
        }
    }
    false
}

/// `str::find` with a `char` pattern.
pub fn find_char(s: &[char], c: char) -> (res: Option<usize>)
    ensures
        match res {
            Some(i) => i < s@.len() && s@[i as int] == c && find_char_spec(s@, c) == Some(i as int),
            None => find_char_spec(s@, c) is None,
        },
{
    let mut i: usize = 0;
    while i < s.len()
        invariant
            0 <= i <= s@.len(),
            forall|k: int| 0 <= k < i ==> s@[k] != c,
        decreases s@.len() - i,
    {
        if s[i] == c {
            proof {
                lemma_find_char_at(s@, c, i as int);
            }
            return Some(i);
        }
        i = i + 1;
    }
    proof {
        lemma_find_char_none(s@, c);
    }
    None
}

/// `char::is_whitespace`.
pub fn is_whitespace(c: char) -> (res: bool)
    ensures
        res == is_ws(c),
{
    let u = c as u32;
    (0x09 <= u && u <= 0x0D) || u == 0x20 || u == 0x85 || u == 0xA0 || u == 0x1680 || (0x2000
        <= u && u <= 0x200A) || u == 0x2028 || u == 0x2029 || u == 0x202F || u == 0x205F || u
        == 0x3000
}

/// `str::trim`.
pub fn trim(s: &[char]) -> (res: Vec<char>)
    ensures
        res@ == trim_spec(s@),
{
    let mut lo: usize = 0;
    assert(s@.skip(0) =~= s@);
    while lo < s.len() && is_whitespace(s[lo])
        invariant
            0 <= lo <= s@.len(),
            trim_start_spec(s@) == trim_start_spec(s@.skip(lo as int)),
        decreases s@.len() - lo,
    {
        assert(s@.skip(lo as int).drop_first() =~= s@.skip(lo + 1));
        lo = lo + 1;
    }
    assert(trim_start_spec(s@.skip(lo as int)) == s@.skip(lo as int));
    let mut hi: usize = s.len();
    while hi > lo && is_whitespace(s[hi - 1])
        invariant
            lo <= hi <= s@.len(),
            trim_start_spec(s@) == s@.skip(lo as int),
            trim_spec(s@) == trim_end_spec(s@.subrange(lo as int, hi as int)),
        decreases hi,
    {
        assert(s@.subrange(lo as int, hi as int).drop_last() =~= s@.subrange(
            lo as int,
            hi - 1,
        ));
        hi = hi - 1;
    }
    proof {
        assert(s@.skip(lo as int) =~= s@.subrange(lo as int, s@.len() as int));
    }
    slice_chars(s, lo, hi)
}

/// `str::trim_start_matches` with a non-empty string pattern.
pub fn trim_start_matches(s: &[char], p: &[char]) -> (res: Vec<char>)
    ensures
        res@ == trim_start_matches_spec(s@, p@),
{
    if p.len() == 0 {
        return slice_chars(s, 0, s.len());
    }
    let mut lo: usize = 0;
    assert(s@.skip(0) =~= s@);
    loop
        invariant
            0 <= lo <= s@.len(),
            p@.len() > 0,
            trim_start_matches_spec(s@, p@) == trim_start_matches_spec(s@.skip(lo as int), p@),
        ensures
            0 <= lo <= s@.len(),
            trim_start_matches_spec(s@, p@) == s@.skip(lo as int),
        decreases s@.len() - lo,
    {
        if occurs_at_exec(s, p, lo) {
            proof {
                assert(s@.skip(lo as int).take(p@.len() as int) =~= s@.subrange(
                    lo as int,
                    lo + p@.len(),
                ));
                assert(s@.skip(lo as int).skip(p@.len() as int) =~= s@.skip(lo + p@.len()));
                assert(lo + p.len() <= s.len());
            }
            lo = lo + p.len();
        } else {
            proof {
                if p@.len() <= s@.skip(lo as int).len() {
                    assert(s@.skip(lo as int).take(p@.len() as int) =~= s@.subrange(
                        lo as int,
                        lo + p@.len(),
                    ));
                }
            }
            break;
        }
    }
    proof {
        assert(s@.skip(lo as int) =~= s@.subrange(lo as int, s@.len() as int));
    }
    slice_chars(s, lo, s.len())
}

/// `u32::from_str`.
pub fn parse_u32(s: &[char]) -> (res: Option<u32>)
    ensures
        res == parse_u32_spec(s@),
{
    let start: usize = if s.len() > 0 && s[0] == '+' {
        1
    } else {
        0
    };
    let ghost body = unsigned_body(s@);
    assert(body =~= s@.skip(start as int));
    if start >= s.len() {
        return None;
    }
    let mut acc: u64 = 0;
    let mut i = start;
    while i < s.len()
        invariant
            start <= i <= s@.len(),
            body == unsigned_body(s@),
            body =~= s@.skip(start as int),
            acc as nat == digits_value(s@.subrange(start as int, i as int)),
            acc <= u32::MAX,
            all_digits(s@.subrange(start as int, i as int)),
        decreases s@.len() - i,
    {
        let c = s[i];
        if !('0' <= c && c <= '9') {
            assert(body[i - start] == c);
            assert(!is_digit(body[i - start]));
            assert(!all_digits(body));
            return None;
        }
        proof {
            lemma_digits_value_push(s@.subrange(start as int, i as int), c);
            assert(s@.subrange(start as int, i as int).push(c) =~= s@.subrange(
                start as int,
                i + 1,
            ));
        }
        let d = (c as u32 - '0' as u32) as u64;
        let next = acc * 10 + d;
        if next > 0xFFFF_FFFF {
            proof {
                if all_digits(body) {
                    lemma_digits_value_prefix_bound(body, (i + 1 - start) as int);
                    assert(body.take((i + 1 - start) as int) =~= s@.subrange(start as int, i + 1));
                }
            }
            return None;
        }
        acc = next;
        i = i + 1;
    }
    assert(s@.subrange(start as int, s@.len() as int) =~= body);
    Some(acc as u32)
}

/// A digit string is worth at least as much as any of its prefixes.
pub proof fn lemma_digits_value_prefix_bound(s: Seq<char>, k: int)
    requires
        0 <= k <= s.len(),
        all_digits(s),
    ensures
        digits_value(s.take(k)) <= digits_value(s),
    decreases s.len() - k,
{
    if k < s.len() {
        lemma_digits_value_prefix_bound(s, k + 1);
        assert(s.take(k + 1).drop_last() =~= s.take(k));
        assert(is_digit(s[k]));
    } else {
        assert(s.take(k) =~= s);
    }
}

/// The leading run of lines that begin with `marker`.
pub open spec fn marked_prefix(ls: Seq<Seq<char>>, marker: Seq<char>) -> Seq<Seq<char>>
    decreases ls.len(),
{
    if ls.len() > 0 && starts_with_spec(ls[0], marker) {
        seq![ls[0]] + marked_prefix(ls.drop_first(), marker)
    } else {
        Seq::empty()
    }
}

/// The header block of a blackbox log: the leading lines that start with `"H "`.
pub open spec fn header_lines(text: Seq<char>) -> Seq<Seq<char>> {
    marked_prefix(lines_of(text), seq!['H', ' '])
}

/// Every line of a marked prefix begins with the marker.
pub proof fn lemma_marked_prefix_starts(ls: Seq<Seq<char>>, marker: Seq<char>)
    ensures
        forall|k: int|
            0 <= k < marked_prefix(ls, marker).len() ==> starts_with_spec(
                #[trigger] marked_prefix(ls, marker)[k],
                marker,
            ),
    decreases ls.len(),
{
    if ls.len() > 0 && starts_with_spec(ls[0], marker) {
        lemma_marked_prefix_starts(ls.drop_first(), marker);
        let rest = marked_prefix(ls.drop_first(), marker);
        assert forall|k: int| 0 <= k < marked_prefix(ls, marker).len() implies starts_with_spec(
            #[trigger] marked_prefix(ls, marker)[k],
            marker,
        ) by {
            if k > 0 {
                assert(marked_prefix(ls, marker)[k] == rest[k - 1]);
            }
        }
    }
}

/// The first line of `ls` that starts with `p`.
pub open spec fn first_starting_with(ls: Seq<Seq<char>>, p: Seq<char>) -> Option<Seq<char>>
    decreases ls.len(),
{
    if ls.len() == 0 {
        None
    } else if starts_with_spec(ls[0], p) {
        Some(ls[0])
    } else {
        first_starting_with(ls.drop_first(), p)
    }
}

/// The first line of `ls` that contains `p`.
pub open spec fn first_containing(ls: Seq<Seq<char>>, p: Seq<char>) -> Option<Seq<char>>
    decreases ls.len(),
{
    if ls.len() == 0 {
        None
    } else if contains_spec(ls[0], p) {
        Some(ls[0])
    } else {
        first_containing(ls.drop_first(), p)
    }
}

/// What `String::from_utf8_lossy` makes of a byte sequence.
pub uninterp spec fn lossy_decode(bytes: Seq<u8>) -> Seq<char>;

/// `String::from_utf8_lossy`: the bytes decoded as UTF-8, each invalid sequence
/// replaced by U+FFFD. The contract names the result and states the
/// documented case of valid input; the replacement rule for invalid input is
/// left to the name.
#[verifier::external_body]
fn utf8_lossy(bytes: &[u8]) -> (res: String)
    ensures
        res@ == lossy_decode(bytes@),
        valid_utf8(bytes@) ==> res@ == decode_utf8(bytes@),
{
    String::from_utf8_lossy(bytes).into_owned()
}

/// `String::push`: appends one character.
#[verifier::external_body]
fn push_char(s: &mut String, c: char)
    ensures
        final(s)@ == old(s)@.push(c),
{
    s.push(c)
}

/// The characters of `bytes` decoded as by `String::from_utf8_lossy`.
pub fn decode_text(bytes: &[u8]) -> (res: Vec<char>)
    ensures
        res@ == lossy_decode(bytes@),
        valid_utf8(bytes@) ==> res@ == decode_utf8(bytes@),
{
    let s = utf8_lossy(bytes);
    chars_of(s.as_str())
}

/// A `String` holding exactly the characters of `v`.
pub fn string_of(v: &[char]) -> (res: String)
    ensures
        res@ == v@,
{
    let mut res = String::new();
    let mut i: usize = 0;
    while i < v.len()
        invariant
            0 <= i <= v@.len(),
            res@ =~= v@.take(i as int),
        decreases v@.len() - i,
    {
        push_char(&mut res, v[i]);
        i = i + 1;
    }
    res
}

/// The first `n` bytes of `data` (or all of them when there are fewer).
pub fn byte_prefix(data: &[u8], n: usize) -> (res: Vec<u8>)
    ensures
        res@ == data@.take(if data@.len() < n { data@.len() as int } else { n as int }),
{
    let end = if data.len() < n {
        data.len()
    } else {
        n
    };
    let mut res: Vec<u8> = Vec::new();
    let mut i: usize = 0;
    while i < end
        invariant
            end <= data@.len(),
            0 <= i <= end,
            res@ =~= data@.take(i as int),
        decreases end - i,
    {
        res.push(data[i]);
        i = i + 1;
    }
    res
}

/// One step of `str::lines`: the line starting at `pos` and the position after it.
pub fn next_line(s: &[char], pos: usize) -> (res: (Vec<char>, usize))
    requires
        pos < s@.len(),
    ensures
        pos < res.1 <= s@.len(),
        lines_of(s@.skip(pos as int)) == seq![res.0@] + lines_of(s@.skip(res.1 as int)),
{
    let t = Ghost(s@.skip(pos as int));
    let mut j = pos;
    while j < s.len() && s[j] != '\n'
        invariant
            pos <= j <= s@.len(),
            t@ == s@.skip(pos as int),
            forall|k: int| pos <= k < j ==> s@[k] != '\n',
        decreases s@.len() - j,
    {
        j = j + 1;
    }
    if j < s.len() {
        proof {
            lemma_find_char_at(t@, '\n', j - pos);
            assert(t@.take(j - pos) =~= s@.subrange(pos as int, j as int));
            assert(t@.skip(j - pos + 1) =~= s@.skip(j + 1));
        }
        let line_end = if j > pos && s[j - 1] == '\r' {
            j - 1
        } else {
            j
        };
        let line = slice_chars(s, pos, line_end);
        proof {
            let raw = s@.subrange(pos as int, j as int);
            if j > pos && s@[j - 1] == '\r' {
                assert(raw.drop_last() =~= s@.subrange(pos as int, j - 1));
            }
            assert(line@ == strip_cr(raw));
        }
        (line, j + 1)
    } else {
        proof {
            lemma_find_char_none(t@, '\n');
            assert(t@ =~= s@.subrange(pos as int, s@.len() as int));
            assert(s@.skip(s@.len() as int) =~= Seq::<char>::empty());
        }
        let line = slice_chars(s, pos, s.len());
        (line, s.len())
    }
}

/// `str::lines`: all lines of `s`.
pub fn lines(s: &[char]) -> (res: Vec<Vec<char>>)
    ensures
        res.deep_view() == lines_of(s@),
{
    let mut res: Vec<Vec<char>> = Vec::new();
    let mut pos: usize = 0;
    assert(s@.skip(0) =~= s@);
    while pos < s.len()
        invariant
            0 <= pos <= s@.len(),
            lines_of(s@) == res.deep_view() + lines_of(s@.skip(pos as int)),
        decreases s@.len() - pos,
    {
        let (line, next) = next_line(s, pos);
        let ghost before = res.deep_view();
        res.push(line);
        proof {
            lemma_char_vec_deep_view(line);
            assert(res.deep_view() =~= before.push(line@));
            assert(before + (seq![line@] + lines_of(s@.skip(next as int))) =~= before.push(line@)
                + lines_of(s@.skip(next as int)));
        }
        pos = next;
    }
    proof {
        assert(s@.skip(pos as int) =~= Seq::<char>::empty());
        assert(res.deep_view() + Seq::<Seq<char>>::empty() =~= res.deep_view());
    }
    res
}

/// A vector of characters deep-views as its plain view.
pub proof fn lemma_char_vec_deep_view(v: Vec<char>)
    ensures
        v.deep_view() == v@,
{
    assert(v.deep_view() =~= v@);
}

/// The header block of a log: the leading lines that start with `"H "`.
pub fn header_block(s: &[char]) -> (res: Vec<Vec<char>>)
    ensures
        res.deep_view() == header_lines(s@),
{
    let marker = ['H', ' '];
    assert(marker@ =~= seq!['H', ' ']);
    let mut res: Vec<Vec<char>> = Vec::new();
    let mut pos: usize = 0;
    assert(s@.skip(0) =~= s@);
    loop
        invariant
            0 <= pos <= s@.len(),
            marker@ == seq!['H', ' '],
            header_lines(s@) == res.deep_view() + marked_prefix(
                lines_of(s@.skip(pos as int)),
                seq!['H', ' '],
            ),
        ensures
            header_lines(s@) == res.deep_view(),
        decreases s@.len() - pos,
    {
        if pos >= s.len() {
            proof {
                assert(s@.skip(pos as int) =~= Seq::<char>::empty());
                assert(res.deep_view() + Seq::<Seq<char>>::empty() =~= res.deep_view());
            }
            break;
        }
        let (line, next) = next_line(s, pos);
        let ghost rest = lines_of(s@.skip(next as int));
        let ghost all = seq![line@] + rest;
        assert(all[0] == line@);
        assert(all.drop_first() =~= rest);
        if !starts_with(&line, &marker) {
            proof {
                assert(res.deep_view() + Seq::<Seq<char>>::empty() =~= res.deep_view());
            }
            break;
        }
        let ghost before = res.deep_view();
        res.push(line);
        proof {
            lemma_char_vec_deep_view(line);
            assert(res.deep_view() =~= before.push(line@));
            assert(before + (seq![line@] + marked_prefix(rest, seq!['H', ' '])) =~= before.push(
                line@,
            ) + marked_prefix(rest, seq!['H', ' ']));
        }
        pos = next;
    }
    res
}

/// The first line of `ls` that starts with `p`.
pub fn find_line_starting(ls: &Vec<Vec<char>>, p: &[char]) -> (res: Option<usize>)
    ensures
        match res {
            Some(i) => i < ls@.len() && first_starting_with(ls.deep_view(), p@) == Some(
                ls@[i as int]@,
            ),
            None => first_starting_with(ls.deep_view(), p@) is None,
        },
{
    let mut i: usize = 0;
    assert(ls.deep_view().skip(0) =~= ls.deep_view());
    while i < ls.len()
        invariant
            0 <= i <= ls@.len(),
            first_starting_with(ls.deep_view(), p@) == first_starting_with(
                ls.deep_view().skip(i as int),
                p@,
            ),
        decreases ls@.len() - i,
    {
        let ghost rest = ls.deep_view().skip(i as int);
        assert(rest[0] == ls@[i as int]@);
        assert(rest.drop_first() =~= ls.deep_view().skip(i + 1));
        if starts_with(&ls[i], p) {
            return Some(i);
        }
        i = i + 1;
    }
    None
}

/// The first line of `ls` that contains `p`.
pub fn find_line_containing(ls: &Vec<Vec<char>>, p: &[char]) -> (res: Option<usize>)
    ensures
        match res {
            Some(i) => i < ls@.len() && first_containing(ls.deep_view(), p@) == Some(
                ls@[i as int]@,
            ),
            None => first_containing(ls.deep_view(), p@) is None,
        },
{
    let mut i: usize = 0;
    assert(ls.deep_view().skip(0) =~= ls.deep_view());
    while i < ls.len()
        invariant
            0 <= i <= ls@.len(),
            first_containing(ls.deep_view(), p@) == first_containing(
                ls.deep_view().skip(i as int),
                p@,
            ),
        decreases ls@.len() - i,
    {
        let ghost rest = ls.deep_view().skip(i as int);
        assert(rest[0] == ls@[i as int]@);
        assert(rest.drop_first() =~= ls.deep_view().skip(i + 1));
        if contains(&ls[i], p) {
            return Some(i);
        }
        i = i + 1;
    }
    None
}

/// The character for a decimal digit value.
pub open spec fn digit_char(d: nat) -> char {
    seq!['0', '1', '2', '3', '4', '5', '6', '7', '8', '9'][d as int]
}

/// The decimal rendering of `n` (as `Display` prints an unsigned integer).
pub open spec fn decimal_spec(n: nat) -> Seq<char>
    decreases n,
{
    if n < 10 {
        seq![digit_char(n)]
    } else {
        decimal_spec(n / 10).push(digit_char(n % 10))
    }
}

/// Decimal rendering of an unsigned integer.
pub fn decimal(n: u64) -> (res: Vec<char>)
    ensures
        res@ == decimal_spec(n as nat),
    decreases n,
{
    let digits = ['0', '1', '2', '3', '4', '5', '6', '7', '8', '9'];
    assert(digits@ =~= seq!['0', '1', '2', '3', '4', '5', '6', '7', '8', '9']);
    if n < 10 {
        let mut v: Vec<char> = Vec::new();
        v.push(digits[n as usize]);
        assert(v@ =~= seq![digit_char(n as nat)]);
        v
    } else {
        let mut v = decimal(n / 10);
        v.push(digits[(n % 10) as usize]);
        v
    }
}

/// Concatenation of two character sequences.
pub fn concat(a: &[char], b: &[char]) -> (res: Vec<char>)
    ensures
        res@ == a@ + b@,
{
    let mut res = slice_chars(a, 0, a.len());
    let mut i: usize = 0;
    assert(a@.subrange(0, a@.len() as int) =~= a@);
    while i < b.len()
        invariant
            0 <= i <= b@.len(),
            res@ =~= a@ + b@.take(i as int),
        decreases b@.len() - i,
    {
        res.push(b[i]);
        i = i + 1;
    }
    res
}

} // verus!
