//! Mapping of logged field names to the telemetry channels the tuner reads.
//!
//! Two mappings exist: the one of the current parser, which recognizes the
//! Betaflight names and a normalized loop-iteration field, and the older one
//! of the header-driven parser, which also accepts the unfiltered gyro and
//! raw accelerometer names and fills a channel triple one axis at a time.

use crate::blackbox::FieldMappings;
use crate::text::{
    chars_of, find_char, find_char_spec, same_chars, slice_chars, starts_with, starts_with_spec,
    string_of, trim, trim_spec,
};
use vstd::prelude::*;

verus! {

// ---------------------------------------------------------------------------
// Name normalization
// ---------------------------------------------------------------------------

/// ASCII letter or digit (`char::is_ascii_alphanumeric`).
pub open spec fn is_ascii_alnum(c: char) -> bool {
    ('0' <= c && c <= '9') || ('a' <= c && c <= 'z') || ('A' <= c && c <= 'Z')
}

/// ASCII lower-casing of one character (`char::to_ascii_lowercase`).
pub open spec fn ascii_lower(c: char) -> char {
    if 'A' <= c && c <= 'Z' {
        ((c as u32) + 32) as char
    } else {
        c
    }
}

/// A field name lower-cased with everything but ASCII letters and digits
/// removed.
pub open spec fn normalized_name(s: Seq<char>) -> Seq<char>
    decreases s.len(),
{
    if s.len() == 0 {
        Seq::empty()
    } else {
        let rest = normalized_name(s.drop_last());
        if is_ascii_alnum(s.last()) {
            rest.push(ascii_lower(s.last()))
        } else {
            rest
        }
    }
}

fn is_ascii_alnum_exec(c: char) -> (res: bool)
    ensures
        res == is_ascii_alnum(c),
{
    ('0' <= c && c <= '9') || ('a' <= c && c <= 'z') || ('A' <= c && c <= 'Z')
}

fn ascii_lower_exec(c: char) -> (res: char)
    ensures
        res == ascii_lower(c),
{
    if 'A' <= c && c <= 'Z' {
        let code = (c as u8) + 32;
        assert(code as char == ((c as u32) + 32) as char);
        code as char
    } else {
        c
    }
}

/// The normalized form of a field name.
pub fn normalize_name(name: &[char]) -> (res: Vec<char>)
    ensures
        res@ == normalized_name(name@),
{
    let mut res: Vec<char> = Vec::new();
    let mut i: usize = 0;
    while i < name.len()
        invariant
            0 <= i <= name@.len(),
            res@ == normalized_name(name@.take(i as int)),
        decreases name@.len() - i,
    {
        let c = name[i];
        assert(name@.take(i + 1).drop_last() =~= name@.take(i as int));
        if is_ascii_alnum_exec(c) {
            res.push(ascii_lower_exec(c));
        }
        i = i + 1;
    }
    assert(name@.take(name@.len() as int) =~= name@);
    res
}

// ---------------------------------------------------------------------------
// Current mapping
// ---------------------------------------------------------------------------

/// The channel a field name feeds in the current mapping.
#[derive(Debug, Clone, Copy, PartialEq, Eq, Structural)]
pub enum FieldRole {
    /// Flight-controller loop iteration
    Iteration,
    /// Gyro axis 0, 1 or 2
    Gyro(u8),
    /// Accelerometer axis 0, 1 or 2
    Accel(u8),
    /// A motor output
    Motor,
    /// RC command 0 (roll), 1 (pitch), 2 (yaw) or 3 (throttle)
    RcCommand(u8),
    /// Not used by the tuner
    Other,
}

/// The role of a field name; the loop iteration is recognized on the
/// normalized name, the others on the exact name.
pub open spec fn field_role(name: Seq<char>) -> FieldRole {
    let n = normalized_name(name);
    if n == "loopiteration"@ || n == "iteration"@ {
        FieldRole::Iteration
    } else if name == "gyroADC[0]"@ {
        FieldRole::Gyro(0)
    } else if name == "gyroADC[1]"@ {
        FieldRole::Gyro(1)
    } else if name == "gyroADC[2]"@ {
        FieldRole::Gyro(2)
    } else if name == "accSmooth[0]"@ {
        FieldRole::Accel(0)
    } else if name == "accSmooth[1]"@ {
        FieldRole::Accel(1)
    } else if name == "accSmooth[2]"@ {
        FieldRole::Accel(2)
    } else if starts_with_spec(name, "motor["@) {
        FieldRole::Motor
    } else if name == "rcCommand[0]"@ {
        FieldRole::RcCommand(0)
    } else if name == "rcCommand[1]"@ {
        FieldRole::RcCommand(1)
    } else if name == "rcCommand[2]"@ {
        FieldRole::RcCommand(2)
    } else if name == "rcCommand[3]"@ {
        FieldRole::RcCommand(3)
    } else {
        FieldRole::Other
    }
}

fn is_literal(v: &Vec<char>, lit: &str) -> (res: bool)
    ensures
        res == (v@ == lit@),
{
    let l = chars_of(lit);
    same_chars(v, &l)
}

/// The role of one field name.
pub fn classify_field(name: &str) -> (res: FieldRole)
    ensures
        res == field_role(name@),
{
    let v = chars_of(name);
    let n = normalize_name(&v);
    if is_literal(&n, "loopiteration") || is_literal(&n, "iteration") {
        FieldRole::Iteration
    } else if is_literal(&v, "gyroADC[0]") {
        FieldRole::Gyro(0)
    } else if is_literal(&v, "gyroADC[1]") {
        FieldRole::Gyro(1)
    } else if is_literal(&v, "gyroADC[2]") {
        FieldRole::Gyro(2)
    } else if is_literal(&v, "accSmooth[0]") {
        FieldRole::Accel(0)
    } else if is_literal(&v, "accSmooth[1]") {
        FieldRole::Accel(1)
    } else if is_literal(&v, "accSmooth[2]") {
        FieldRole::Accel(2)
    } else if starts_with(&v, &chars_of("motor[")) {
        FieldRole::Motor
    } else if is_literal(&v, "rcCommand[0]") {
        FieldRole::RcCommand(0)
    } else if is_literal(&v, "rcCommand[1]") {
        FieldRole::RcCommand(1)
    } else if is_literal(&v, "rcCommand[2]") {
        FieldRole::RcCommand(2)
    } else if is_literal(&v, "rcCommand[3]") {
        FieldRole::RcCommand(3)
    } else {
        FieldRole::Other
    }
}

/// A name ending in a digit and `]` does not normalize to a loop-iteration
/// name: its normalized form ends in that digit.
proof fn lemma_indexed_not_iteration(s: Seq<char>)
    requires
        s.len() >= 2,
        s.last() == ']',
        '0' <= s[s.len() - 2] <= '9',
    ensures
        normalized_name(s) != "loopiteration"@,
        normalized_name(s) != "iteration"@,
{
    reveal_strlit("loopiteration");
    reveal_strlit("iteration");
    let d = s.drop_last();
    assert(d.last() == s[s.len() - 2]);
    assert(normalized_name(s) == normalized_name(d));
    assert(normalized_name(d).last() == s[s.len() - 2]);
}

/// The axis channels are recognized by their exact names, and the axis
/// number of the role is the index in the name: `gyroADC[k]` is gyro axis
/// `k`, `accSmooth[k]` accelerometer axis `k` (for `k` of 0, 1, 2) and
/// `rcCommand[k]` RC command `k` (for `k` of 0 to 3); no other name has
/// one of these roles, and only names starting with `motor[` are motors.
pub proof fn lemma_channel_names(name: Seq<char>)
    ensures
        field_role(name) == FieldRole::Gyro(0) <==> name == "gyroADC[0]"@,
        field_role(name) == FieldRole::Gyro(1) <==> name == "gyroADC[1]"@,
        field_role(name) == FieldRole::Gyro(2) <==> name == "gyroADC[2]"@,
        field_role(name) == FieldRole::Accel(0) <==> name == "accSmooth[0]"@,
        field_role(name) == FieldRole::Accel(1) <==> name == "accSmooth[1]"@,
        field_role(name) == FieldRole::Accel(2) <==> name == "accSmooth[2]"@,
        field_role(name) == FieldRole::RcCommand(0) <==> name == "rcCommand[0]"@,
        field_role(name) == FieldRole::RcCommand(1) <==> name == "rcCommand[1]"@,
        field_role(name) == FieldRole::RcCommand(2) <==> name == "rcCommand[2]"@,
        field_role(name) == FieldRole::RcCommand(3) <==> name == "rcCommand[3]"@,
        forall|k: u8| k >= 3 ==> field_role(name) != FieldRole::Gyro(k) && field_role(name)
            != FieldRole::Accel(k),
        forall|k: u8| k >= 4 ==> field_role(name) != FieldRole::RcCommand(k),
        field_role(name) == FieldRole::Motor ==> starts_with_spec(name, "motor["@),
{
    reveal_strlit("gyroADC[0]");
    reveal_strlit("gyroADC[1]");
    reveal_strlit("gyroADC[2]");
    reveal_strlit("accSmooth[0]");
    reveal_strlit("accSmooth[1]");
    reveal_strlit("accSmooth[2]");
    reveal_strlit("rcCommand[0]");
    reveal_strlit("rcCommand[1]");
    reveal_strlit("rcCommand[2]");
    reveal_strlit("rcCommand[3]");
    reveal_strlit("motor[");
    if name.len() >= 2 && name.last() == ']' && '0' <= name[name.len() - 2] <= '9' {
        lemma_indexed_not_iteration(name);
    }
    if name == "rcCommand[0]"@ || name == "rcCommand[1]"@ || name == "rcCommand[2]"@ || name
        == "rcCommand[3]"@ {
        assert(name.take(6)[0] == 'r');
        assert(!starts_with_spec(name, "motor["@));
    }
}

/// Index of the last name with the given role.
pub open spec fn last_with_role(names: Seq<Seq<char>>, role: FieldRole) -> Option<usize>
    decreases names.len(),
{
    if names.len() == 0 {
        None
    } else if field_role(names.last()) == role {
        Some((names.len() - 1) as usize)
    } else {
        last_with_role(names.drop_last(), role)
    }
}

/// Indices of all names with the given role, in order.
pub open spec fn positions_with_role(names: Seq<Seq<char>>, role: FieldRole) -> Seq<usize>
    decreases names.len(),
{
    if names.len() == 0 {
        Seq::empty()
    } else if field_role(names.last()) == role {
        positions_with_role(names.drop_last(), role).push((names.len() - 1) as usize)
    } else {
        positions_with_role(names.drop_last(), role)
    }
}

/// The field roles as the mapping reads them: the last name with a role is
/// that role's pick, with no later name of the role, and none exactly when
/// no name has it; the positions with a role are exactly the names with
/// it, in ascending order.
pub proof fn lemma_role_positions(names: Seq<Seq<char>>, role: FieldRole)
    requires
        names.len() <= usize::MAX,
    ensures
        last_with_role(names, role) matches Some(i) ==> i < names.len() && field_role(names[i as int])
            == role && forall|j: int| i < j < names.len() ==> field_role(#[trigger] names[j]) != role,
        last_with_role(names, role) is None <==> forall|j: int|
            0 <= j < names.len() ==> field_role(#[trigger] names[j]) != role,
        forall|k: int|
            0 <= k < positions_with_role(names, role).len() ==> #[trigger] positions_with_role(
                names,
                role,
            )[k] < names.len() && field_role(names[positions_with_role(names, role)[k] as int])
                == role,
        forall|k: int, l: int|
            0 <= k < l < positions_with_role(names, role).len() ==> #[trigger] positions_with_role(
                names,
                role,
            )[k] < #[trigger] positions_with_role(names, role)[l],
        forall|j: int|
            0 <= j < names.len() && field_role(#[trigger] names[j]) == role ==> exists|k: int|
                0 <= k < positions_with_role(names, role).len() && #[trigger] positions_with_role(
                    names,
                    role,
                )[k] == j,
    decreases names.len(),
{
    if names.len() > 0 {
        let d = names.drop_last();
        let n = names.len() - 1;
        lemma_role_positions(d, role);
        assert forall|j: int| 0 <= j < n implies names[j] == d[j] by {}
        let pd = positions_with_role(d, role);
        if field_role(names[n]) == role {
            let p = pd.push(n as usize);
            assert(positions_with_role(names, role) == p);
            assert forall|j: int|
                0 <= j < names.len() && field_role(#[trigger] names[j]) == role implies exists|k: int|
                0 <= k < p.len() && #[trigger] p[k] == j by {
                if j < n {
                    assert(d[j] == names[j]);
                    let k = choose|k: int| 0 <= k < pd.len() && #[trigger] pd[k] == j;
                    assert(p[k] == j);
                } else {
                    assert(p[pd.len() as int] == j);
                }
            }
        } else {
            assert(positions_with_role(names, role) == pd);
            assert forall|j: int|
                0 <= j < names.len() && field_role(#[trigger] names[j]) == role implies exists|k: int|
                0 <= k < pd.len() && #[trigger] pd[k] == j by {
                assert(j < n);
                assert(d[j] == names[j]);
            }
        }
    }
}

/// What the mapping picks names the right fields: the gyro, accelerometer
/// and RC indices it takes (when all axes are present) point at
/// `gyroADC[0..2]`, `accSmooth[0..2]` and `rcCommand[0..3]` in axis order,
/// the iteration index at a name that normalizes to `loopiteration` or
/// `iteration`, and every motor position at a name starting with `motor[`.
pub proof fn lemma_mapped_channel_names(ns: Seq<Seq<char>>)
    requires
        ns.len() <= usize::MAX,
    ensures
        all3(
            last_with_role(ns, FieldRole::Gyro(0)),
            last_with_role(ns, FieldRole::Gyro(1)),
            last_with_role(ns, FieldRole::Gyro(2)),
        ) matches Some((x, y, z)) ==> x < ns.len() && y < ns.len() && z < ns.len() && ns[x as int]
            == "gyroADC[0]"@ && ns[y as int] == "gyroADC[1]"@ && ns[z as int] == "gyroADC[2]"@,
        all3(
            last_with_role(ns, FieldRole::Accel(0)),
            last_with_role(ns, FieldRole::Accel(1)),
            last_with_role(ns, FieldRole::Accel(2)),
        ) matches Some((x, y, z)) ==> x < ns.len() && y < ns.len() && z < ns.len() && ns[x as int]
            == "accSmooth[0]"@ && ns[y as int] == "accSmooth[1]"@ && ns[z as int] == "accSmooth[2]"@,
        all4(
            last_with_role(ns, FieldRole::RcCommand(0)),
            last_with_role(ns, FieldRole::RcCommand(1)),
            last_with_role(ns, FieldRole::RcCommand(2)),
            last_with_role(ns, FieldRole::RcCommand(3)),
        ) matches Some((w, x, y, z)) ==> w < ns.len() && x < ns.len() && y < ns.len() && z < ns.len()
            && ns[w as int] == "rcCommand[0]"@ && ns[x as int] == "rcCommand[1]"@ && ns[y as int]
            == "rcCommand[2]"@ && ns[z as int] == "rcCommand[3]"@,
        last_with_role(ns, FieldRole::Iteration) matches Some(i) ==> i < ns.len() && (normalized_name(
            ns[i as int],
        ) == "loopiteration"@ || normalized_name(ns[i as int]) == "iteration"@),
        forall|k: int|
            0 <= k < positions_with_role(ns, FieldRole::Motor).len() ==> #[trigger] positions_with_role(
                ns,
                FieldRole::Motor,
            )[k] < ns.len() && starts_with_spec(
                ns[positions_with_role(ns, FieldRole::Motor)[k] as int],
                "motor["@,
            ),
{
    lemma_role_positions(ns, FieldRole::Gyro(0));
    lemma_role_positions(ns, FieldRole::Gyro(1));
    lemma_role_positions(ns, FieldRole::Gyro(2));
    lemma_role_positions(ns, FieldRole::Accel(0));
    lemma_role_positions(ns, FieldRole::Accel(1));
    lemma_role_positions(ns, FieldRole::Accel(2));
    lemma_role_positions(ns, FieldRole::RcCommand(0));
    lemma_role_positions(ns, FieldRole::RcCommand(1));
    lemma_role_positions(ns, FieldRole::RcCommand(2));
    lemma_role_positions(ns, FieldRole::RcCommand(3));
    lemma_role_positions(ns, FieldRole::Iteration);
    lemma_role_positions(ns, FieldRole::Motor);
    assert forall|i: int| 0 <= i < ns.len() implies {
        &&& field_role(ns[i]) == FieldRole::Gyro(0) ==> ns[i] == "gyroADC[0]"@
        &&& field_role(ns[i]) == FieldRole::Gyro(1) ==> ns[i] == "gyroADC[1]"@
        &&& field_role(ns[i]) == FieldRole::Gyro(2) ==> ns[i] == "gyroADC[2]"@
        &&& field_role(ns[i]) == FieldRole::Accel(0) ==> ns[i] == "accSmooth[0]"@
        &&& field_role(ns[i]) == FieldRole::Accel(1) ==> ns[i] == "accSmooth[1]"@
        &&& field_role(ns[i]) == FieldRole::Accel(2) ==> ns[i] == "accSmooth[2]"@
        &&& field_role(ns[i]) == FieldRole::RcCommand(0) ==> ns[i] == "rcCommand[0]"@
        &&& field_role(ns[i]) == FieldRole::RcCommand(1) ==> ns[i] == "rcCommand[1]"@
        &&& field_role(ns[i]) == FieldRole::RcCommand(2) ==> ns[i] == "rcCommand[2]"@
        &&& field_role(ns[i]) == FieldRole::RcCommand(3) ==> ns[i] == "rcCommand[3]"@
        &&& field_role(ns[i]) == FieldRole::Motor ==> starts_with_spec(ns[i], "motor["@)
    } by {
        lemma_channel_names(ns[i]);
    }
}

/// All three when all three are present.
pub open spec fn all3(a: Option<usize>, b: Option<usize>, c: Option<usize>) -> Option<
    (usize, usize, usize),
> {
    match (a, b, c) {
        (Some(x), Some(y), Some(z)) => Some((x, y, z)),
        _ => None,
    }
}

/// All four when all four are present.
pub open spec fn all4(a: Option<usize>, b: Option<usize>, c: Option<usize>, d: Option<usize>) -> Option<
    (usize, usize, usize, usize),
> {
    match (a, b, c, d) {
        (Some(w), Some(x), Some(y), Some(z)) => Some((w, x, y, z)),
        _ => None,
    }
}

/// The views of a list of names.
pub open spec fn name_views(names: Seq<String>) -> Seq<Seq<char>> {
    names.map_values(|n: String| n@)
}

/// Update `mappings` from the main-frame field names.
///
/// Each channel takes the last field with its role. A channel triple (or
/// the RC quadruple) is only set when all its axes are present, and keeps
/// its previous value otherwise; the motor list and the iteration index are
/// always replaced; the other channels are left as they are.
pub fn extract_field_mappings(names: &Vec<String>, mappings: &mut FieldMappings)
    ensures
        ({
            let ns = name_views(names@);
            let gyro = all3(
                last_with_role(ns, FieldRole::Gyro(0)),
                last_with_role(ns, FieldRole::Gyro(1)),
                last_with_role(ns, FieldRole::Gyro(2)),
            );
            let accel = all3(
                last_with_role(ns, FieldRole::Accel(0)),
                last_with_role(ns, FieldRole::Accel(1)),
                last_with_role(ns, FieldRole::Accel(2)),
            );
            let rc = all4(
                last_with_role(ns, FieldRole::RcCommand(0)),
                last_with_role(ns, FieldRole::RcCommand(1)),
                last_with_role(ns, FieldRole::RcCommand(2)),
                last_with_role(ns, FieldRole::RcCommand(3)),
            );
            &&& final(mappings).gyro_indices == if gyro is Some {
                gyro
            } else {
                old(mappings).gyro_indices
            }
            &&& final(mappings).accel_indices == if accel is Some {
                accel
            } else {
                old(mappings).accel_indices
            }
            &&& final(mappings).rc_command_indices == if rc is Some {
                rc
            } else {
                old(mappings).rc_command_indices
            }
            &&& final(mappings).motor_indices@ == positions_with_role(ns, FieldRole::Motor)
            &&& final(mappings).iteration_idx == last_with_role(ns, FieldRole::Iteration)
            &&& final(mappings).pid_error_indices == old(mappings).pid_error_indices
            &&& final(mappings).pid_output_indices == old(mappings).pid_output_indices
            &&& final(mappings).setpoint_indices == old(mappings).setpoint_indices
        }),
{
    let ghost ns = name_views(names@);
    let mut gx: Option<usize> = None;
    let mut gy: Option<usize> = None;
    let mut gz: Option<usize> = None;
    let mut ax: Option<usize> = None;
    let mut ay: Option<usize> = None;
    let mut az: Option<usize> = None;
    let mut r0: Option<usize> = None;
    let mut r1: Option<usize> = None;
    let mut r2: Option<usize> = None;
    let mut r3: Option<usize> = None;
    let mut iteration: Option<usize> = None;
    let mut motors: Vec<usize> = Vec::new();
    let mut i: usize = 0;
    while i < names.len()
        invariant
            0 <= i <= names@.len(),
            ns == name_views(names@),
            gx == last_with_role(ns.take(i as int), FieldRole::Gyro(0)),
            gy == last_with_role(ns.take(i as int), FieldRole::Gyro(1)),
            gz == last_with_role(ns.take(i as int), FieldRole::Gyro(2)),
            ax == last_with_role(ns.take(i as int), FieldRole::Accel(0)),
            ay == last_with_role(ns.take(i as int), FieldRole::Accel(1)),
            az == last_with_role(ns.take(i as int), FieldRole::Accel(2)),
            r0 == last_with_role(ns.take(i as int), FieldRole::RcCommand(0)),
            r1 == last_with_role(ns.take(i as int), FieldRole::RcCommand(1)),
            r2 == last_with_role(ns.take(i as int), FieldRole::RcCommand(2)),
            r3 == last_with_role(ns.take(i as int), FieldRole::RcCommand(3)),
            iteration == last_with_role(ns.take(i as int), FieldRole::Iteration),
            motors@ == positions_with_role(ns.take(i as int), FieldRole::Motor),
        decreases names@.len() - i,
    {
        let role = classify_field(names[i].as_str());
        proof {
            let t = ns.take(i + 1);
            assert(t.drop_last() =~= ns.take(i as int));
            assert(t.last() == names@[i as int]@);
            assert(t.len() - 1 == i);
        }
        match role {
            FieldRole::Iteration => {
                iteration = Some(i);
            },
            FieldRole::Gyro(k) => {
                if k == 0 {
                    gx = Some(i);
                } else if k == 1 {
                    gy = Some(i);
                } else {
                    gz = Some(i);
                }
            },
            FieldRole::Accel(k) => {
                if k == 0 {
                    ax = Some(i);
                } else if k == 1 {
                    ay = Some(i);
                } else {
                    az = Some(i);
                }
            },
            FieldRole::Motor => {
                motors.push(i);
            },
            FieldRole::RcCommand(k) => {
                if k == 0 {
                    r0 = Some(i);
                } else if k == 1 {
                    r1 = Some(i);
                } else if k == 2 {
                    r2 = Some(i);
                } else {
                    r3 = Some(i);
                }
            },
            FieldRole::Other => {},
        }
        i = i + 1;
    }
    assert(ns.take(names@.len() as int) =~= ns);
    if let (Some(x), Some(y), Some(z)) = (gx, gy, gz) {
        mappings.gyro_indices = Some((x, y, z));
    }
    if let (Some(x), Some(y), Some(z)) = (ax, ay, az) {
        mappings.accel_indices = Some((x, y, z));
    }
    mappings.motor_indices = motors;
    if let (Some(a), Some(b), Some(c), Some(d)) = (r0, r1, r2, r3) {
        mappings.rc_command_indices = Some((a, b, c, d));
    }
    mappings.iteration_idx = iteration;
}

// ---------------------------------------------------------------------------
// Header-driven mapping
// ---------------------------------------------------------------------------

/// The channel a field name feeds in the header-driven mapping.
#[derive(Debug, Clone, Copy, PartialEq, Eq, Structural)]
pub enum HeaderFieldRole {
    /// Gyro axis 0, 1 or 2 (filtered or unfiltered)
    Gyro(u8),
    /// Accelerometer axis 0, 1 or 2 (smoothed or raw)
    Accel(u8),
    /// A motor output
    Motor,
    /// RC command 0 to 3
    RcCommand(u8),
    /// Not used
    Other,
}

/// The role of a field name in the header-driven mapping.
pub open spec fn header_field_role(name: Seq<char>) -> HeaderFieldRole {
    if name == "gyroADC[0]"@ || name == "gyroUnfilt[0]"@ {
        HeaderFieldRole::Gyro(0)
    } else if name == "gyroADC[1]"@ || name == "gyroUnfilt[1]"@ {
        HeaderFieldRole::Gyro(1)
    } else if name == "gyroADC[2]"@ || name == "gyroUnfilt[2]"@ {
        HeaderFieldRole::Gyro(2)
    } else if name == "accSmooth[0]"@ || name == "acc[0]"@ {
        HeaderFieldRole::Accel(0)
    } else if name == "accSmooth[1]"@ || name == "acc[1]"@ {
        HeaderFieldRole::Accel(1)
    } else if name == "accSmooth[2]"@ || name == "acc[2]"@ {
        HeaderFieldRole::Accel(2)
    } else if starts_with_spec(name, "motor["@) {
        HeaderFieldRole::Motor
    } else if name == "rcCommand[0]"@ {
        HeaderFieldRole::RcCommand(0)
    } else if name == "rcCommand[1]"@ {
        HeaderFieldRole::RcCommand(1)
    } else if name == "rcCommand[2]"@ {
        HeaderFieldRole::RcCommand(2)
    } else if name == "rcCommand[3]"@ {
        HeaderFieldRole::RcCommand(3)
    } else {
        HeaderFieldRole::Other
    }
}

/// In the header-driven mapping, too, the axis number of a role is the
/// index in the name: `gyroADC[k]` or `gyroUnfilt[k]` is gyro axis `k`,
/// `accSmooth[k]` or `acc[k]` accelerometer axis `k`, `rcCommand[k]` RC
/// command `k`; no other name has one of these roles, and only names
/// starting with `motor[` are motors.
pub proof fn lemma_header_channel_names(name: Seq<char>)
    ensures
        header_field_role(name) == HeaderFieldRole::Gyro(0) <==> (name == "gyroADC[0]"@ || name
            == "gyroUnfilt[0]"@),
        header_field_role(name) == HeaderFieldRole::Gyro(1) <==> (name == "gyroADC[1]"@ || name
            == "gyroUnfilt[1]"@),
        header_field_role(name) == HeaderFieldRole::Gyro(2) <==> (name == "gyroADC[2]"@ || name
            == "gyroUnfilt[2]"@),
        header_field_role(name) == HeaderFieldRole::Accel(0) <==> (name == "accSmooth[0]"@ || name
            == "acc[0]"@),
        header_field_role(name) == HeaderFieldRole::Accel(1) <==> (name == "accSmooth[1]"@ || name
            == "acc[1]"@),
        header_field_role(name) == HeaderFieldRole::Accel(2) <==> (name == "accSmooth[2]"@ || name
            == "acc[2]"@),
        header_field_role(name) == HeaderFieldRole::RcCommand(0) <==> name == "rcCommand[0]"@,
        header_field_role(name) == HeaderFieldRole::RcCommand(1) <==> name == "rcCommand[1]"@,
        header_field_role(name) == HeaderFieldRole::RcCommand(2) <==> name == "rcCommand[2]"@,
        header_field_role(name) == HeaderFieldRole::RcCommand(3) <==> name == "rcCommand[3]"@,
        forall|k: u8| k >= 3 ==> header_field_role(name) != HeaderFieldRole::Gyro(k)
            && header_field_role(name) != HeaderFieldRole::Accel(k),
        forall|k: u8| k >= 4 ==> header_field_role(name) != HeaderFieldRole::RcCommand(k),
        header_field_role(name) == HeaderFieldRole::Motor ==> starts_with_spec(name, "motor["@),
{
    reveal_strlit("gyroADC[0]");
    reveal_strlit("gyroADC[1]");
    reveal_strlit("gyroADC[2]");
    reveal_strlit("gyroUnfilt[0]");
    reveal_strlit("gyroUnfilt[1]");
    reveal_strlit("gyroUnfilt[2]");
    reveal_strlit("accSmooth[0]");
    reveal_strlit("accSmooth[1]");
    reveal_strlit("accSmooth[2]");
    reveal_strlit("acc[0]");
    reveal_strlit("acc[1]");
    reveal_strlit("acc[2]");
    reveal_strlit("rcCommand[0]");
    reveal_strlit("rcCommand[1]");
    reveal_strlit("rcCommand[2]");
    reveal_strlit("rcCommand[3]");
    reveal_strlit("motor[");
    assert("gyroUnfilt[0]"@[11] != "gyroUnfilt[1]"@[11]);
    assert("gyroUnfilt[0]"@[11] != "gyroUnfilt[2]"@[11]);
    assert("gyroUnfilt[1]"@[11] != "gyroUnfilt[2]"@[11]);
    assert("gyroADC[0]"@[8] != "gyroADC[1]"@[8]);
    assert("gyroADC[0]"@[8] != "gyroADC[2]"@[8]);
    assert("gyroADC[1]"@[8] != "gyroADC[2]"@[8]);
    assert("acc[0]"@[4] != "acc[1]"@[4]);
    assert("acc[0]"@[4] != "acc[2]"@[4]);
    assert("acc[1]"@[4] != "acc[2]"@[4]);
    assert("accSmooth[0]"@[10] != "accSmooth[1]"@[10]);
    assert("accSmooth[0]"@[10] != "accSmooth[2]"@[10]);
    assert("accSmooth[1]"@[10] != "accSmooth[2]"@[10]);
    assert("rcCommand[0]"@[10] != "rcCommand[1]"@[10]);
    assert("rcCommand[0]"@[10] != "rcCommand[2]"@[10]);
    assert("rcCommand[0]"@[10] != "rcCommand[3]"@[10]);
    assert("rcCommand[1]"@[10] != "rcCommand[2]"@[10]);
    assert("rcCommand[1]"@[10] != "rcCommand[3]"@[10]);
    assert("rcCommand[2]"@[10] != "rcCommand[3]"@[10]);
    if name == "rcCommand[0]"@ || name == "rcCommand[1]"@ || name == "rcCommand[2]"@ || name
        == "rcCommand[3]"@ {
        assert(name.take(6)[0] == 'r');
        assert(!starts_with_spec(name, "motor["@));
    }
}

/// The role of one field name in the header-driven mapping.
pub fn classify_header_field(name: &str) -> (res: HeaderFieldRole)
    ensures
        res == header_field_role(name@),
{
    let v = chars_of(name);
    if is_literal(&v, "gyroADC[0]") || is_literal(&v, "gyroUnfilt[0]") {
        HeaderFieldRole::Gyro(0)
    } else if is_literal(&v, "gyroADC[1]") || is_literal(&v, "gyroUnfilt[1]") {
        HeaderFieldRole::Gyro(1)
    } else if is_literal(&v, "gyroADC[2]") || is_literal(&v, "gyroUnfilt[2]") {
        HeaderFieldRole::Gyro(2)
    } else if is_literal(&v, "accSmooth[0]") || is_literal(&v, "acc[0]") {
        HeaderFieldRole::Accel(0)
    } else if is_literal(&v, "accSmooth[1]") || is_literal(&v, "acc[1]") {
        HeaderFieldRole::Accel(1)
    } else if is_literal(&v, "accSmooth[2]") || is_literal(&v, "acc[2]") {
        HeaderFieldRole::Accel(2)
    } else if starts_with(&v, &chars_of("motor[")) {
        HeaderFieldRole::Motor
    } else if is_literal(&v, "rcCommand[0]") {
        HeaderFieldRole::RcCommand(0)
    } else if is_literal(&v, "rcCommand[1]") {
        HeaderFieldRole::RcCommand(1)
    } else if is_literal(&v, "rcCommand[2]") {
        HeaderFieldRole::RcCommand(2)
    } else if is_literal(&v, "rcCommand[3]") {
        HeaderFieldRole::RcCommand(3)
    } else {
        HeaderFieldRole::Other
    }
}

/// A triple with axis `k` set to `v`; the other axes keep their values, or
/// are 0 when the triple was not set yet.
pub open spec fn put3(t: Option<(usize, usize, usize)>, k: u8, v: usize) -> Option<
    (usize, usize, usize),
> {
    let (x, y, z) = match t {
        Some(t) => t,
        None => (0usize, 0usize, 0usize),
    };
    Some(
        if k == 0 {
            (v, y, z)
        } else if k == 1 {
            (x, v, z)
        } else {
            (x, y, v)
        },
    )
}

/// A quadruple with component `k` set to `v`, the others kept or 0.
pub open spec fn put4(t: Option<(usize, usize, usize, usize)>, k: u8, v: usize) -> Option<
    (usize, usize, usize, usize),
> {
    let (a, b, c, d) = match t {
        Some(t) => t,
        None => (0usize, 0usize, 0usize, 0usize),
    };
    Some(
        if k == 0 {
            (v, b, c, d)
        } else if k == 1 {
            (a, v, c, d)
        } else if k == 2 {
            (a, b, v, d)
        } else {
            (a, b, c, v)
        },
    )
}

/// The channels of the header-driven mapping after reading `names` in order.
pub open spec fn header_mapping(names: Seq<Seq<char>>) -> (
    Option<(usize, usize, usize)>,
    Option<(usize, usize, usize)>,
    Seq<usize>,
    Option<(usize, usize, usize, usize)>,
)
    decreases names.len(),
{
    if names.len() == 0 {
        (None, None, Seq::empty(), None)
    } else {
        let (g, a, m, r) = header_mapping(names.drop_last());
        let i = (names.len() - 1) as usize;
        match header_field_role(names.last()) {
            HeaderFieldRole::Gyro(k) => (put3(g, k, i), a, m, r),
            HeaderFieldRole::Accel(k) => (g, put3(a, k, i), m, r),
            HeaderFieldRole::Motor => (g, a, m.push(i), r),
            HeaderFieldRole::RcCommand(k) => (g, a, m, put4(r, k, i)),
            HeaderFieldRole::Other => (g, a, m, r),
        }
    }
}

fn put3_exec(t: Option<(usize, usize, usize)>, k: u8, v: usize) -> (res: Option<
    (usize, usize, usize),
>)
    ensures
        res == put3(t, k, v),
{
    let (x, y, z) = match t {
        Some(t) => t,
        None => (0, 0, 0),
    };
    Some(
        if k == 0 {
            (v, y, z)
        } else if k == 1 {
            (x, v, z)
        } else {
            (x, y, v)
        },
    )
}

fn put4_exec(t: Option<(usize, usize, usize, usize)>, k: u8, v: usize) -> (res: Option<
    (usize, usize, usize, usize),
>)
    ensures
        res == put4(t, k, v),
{
    let (a, b, c, d) = match t {
        Some(t) => t,
        None => (0, 0, 0, 0),
    };
    Some(
        if k == 0 {
            (v, b, c, d)
        } else if k == 1 {
            (a, v, c, d)
        } else if k == 2 {
            (a, b, v, d)
        } else {
            (a, b, c, v)
        },
    )
}

/// Field mappings of the header-driven parser, from the field names in
/// header order. Setting one axis of a channel sets the channel, with the
/// axes not seen yet at 0; later names win; unknown names are ignored.
pub fn create_field_mappings(names: &Vec<String>) -> (res: FieldMappings)
    ensures
        ({
            let (g, a, m, r) = header_mapping(name_views(names@));
            &&& res.gyro_indices == g
            &&& res.accel_indices == a
            &&& res.motor_indices@ == m
            &&& res.rc_command_indices == r
            &&& res.pid_error_indices is None
            &&& res.pid_output_indices is None
            &&& res.setpoint_indices is None
            &&& res.iteration_idx is None
        }),
{
    let ghost ns = name_views(names@);
    let mut mappings = FieldMappings::default();
    let mut i: usize = 0;
    while i < names.len()
        invariant
            0 <= i <= names@.len(),
            ns == name_views(names@),
            ({
                let (g, a, m, r) = header_mapping(ns.take(i as int));
                &&& mappings.gyro_indices == g
                &&& mappings.accel_indices == a
                &&& mappings.motor_indices@ == m
                &&& mappings.rc_command_indices == r
            }),
            mappings.pid_error_indices is None,
            mappings.pid_output_indices is None,
            mappings.setpoint_indices is None,
            mappings.iteration_idx is None,
        decreases names@.len() - i,
    {
        let role = classify_header_field(names[i].as_str());
        proof {
            let t = ns.take(i + 1);
            assert(t.drop_last() =~= ns.take(i as int));
            assert(t.last() == names@[i as int]@);
        }
        match role {
            HeaderFieldRole::Gyro(k) => {
                mappings.gyro_indices = put3_exec(mappings.gyro_indices, k, i);
            },
            HeaderFieldRole::Accel(k) => {
                mappings.accel_indices = put3_exec(mappings.accel_indices, k, i);
            },
            HeaderFieldRole::Motor => {
                mappings.motor_indices.push(i);
            },
            HeaderFieldRole::RcCommand(k) => {
                mappings.rc_command_indices = put4_exec(mappings.rc_command_indices, k, i);
            },
            HeaderFieldRole::Other => {},
        }
        i = i + 1;
    }
    assert(ns.take(names@.len() as int) =~= ns);
    mappings
}

/// The second `:`-separated segment of a field definition, trimmed.
pub open spec fn definition_name(value: Seq<char>) -> Seq<char> {
    match find_char_spec(value, ':') {
        Some(i) => {
            let rest = value.skip(i + 1);
            trim_spec(
                match find_char_spec(rest, ':') {
                    Some(j) => rest.take(j),
                    None => rest,
                },
            )
        },
        None => Seq::empty(),
    }
}

/// Whether a header entry defines a field: its key starts with `Field I`
/// and its value holds a `:`.
pub open spec fn is_field_definition(key: Seq<char>, value: Seq<char>) -> bool {
    starts_with_spec(key, "Field I"@) && find_char_spec(value, ':') is Some
}

/// Names defined by the header entries, in order.
pub open spec fn defined_field_names(entries: Seq<(Seq<char>, Seq<char>)>) -> Seq<Seq<char>>
    decreases entries.len(),
{
    if entries.len() == 0 {
        Seq::empty()
    } else {
        let rest = defined_field_names(entries.drop_last());
        let (k, v) = entries.last();
        if is_field_definition(k, v) {
            rest.push(definition_name(v))
        } else {
            rest
        }
    }
}

/// The views of header entries.
pub open spec fn entry_views(entries: Seq<(String, String)>) -> Seq<(Seq<char>, Seq<char>)> {
    entries.map_values(|e: (String, String)| (e.0@, e.1@))
}

fn definition_name_exec(value: &Vec<char>) -> (res: Vec<char>)
    requires
        find_char_spec(value@, ':') is Some,
    ensures
        res@ == definition_name(value@),
{
    let i = match find_char(value, ':') {
        Some(i) => i,
        None => {
            return Vec::new();
        },
    };
    let n = value.len();
    assert(i < n);
    let rest = slice_chars(value, i + 1, n);
    assert(rest@ =~= value@.skip(i + 1));
    let seg = match find_char(&rest, ':') {
        Some(j) => {
            assert(rest@.subrange(0, j as int) =~= rest@.take(j as int));
            slice_chars(&rest, 0, j)
        },
        None => rest,
    };
    trim(&seg)
}

/// Field names from the header entries (key and value, in header order).
pub fn field_names_from_headers(entries: &Vec<(String, String)>) -> (res: Vec<String>)
    ensures
        name_views(res@) == defined_field_names(entry_views(entries@)),
{
    let ghost es = entry_views(entries@);
    let mut res: Vec<String> = Vec::new();
    let mut i: usize = 0;
    let prefix = chars_of("Field I");
    while i < entries.len()
        invariant
            0 <= i <= entries@.len(),
            es == entry_views(entries@),
            prefix@ == "Field I"@,
            name_views(res@) == defined_field_names(es.take(i as int)),
        decreases entries@.len() - i,
    {
        let key = chars_of(entries[i].0.as_str());
        let value = chars_of(entries[i].1.as_str());
        proof {
            let t = es.take(i + 1);
            assert(t.drop_last() =~= es.take(i as int));
            assert(t.last() == (entries@[i as int].0@, entries@[i as int].1@));
        }
        if starts_with(&key, &prefix) {
            if let Some(_) = find_char(&value, ':') {
                let name = definition_name_exec(&value);
                let ghost before = res@;
                res.push(string_of(&name));
                assert(name_views(res@) =~= name_views(before).push(name@));
            }
        }
        i = i + 1;
    }
    assert(es.take(entries@.len() as int) =~= es);
    res
}

} // verus!
