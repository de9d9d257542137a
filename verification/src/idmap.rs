//! The id-mapping engine: subordinate-id ranges parsed from `subuid`-shaped
//! text, the two- or three-segment map that covers a subordinate range while
//! pinning one host id, and the strings handed to the mapping helpers.

use core::ops::Range;

use vstd::prelude::*;

use crate::error::Error;
use crate::numfmt::{dec_chars, dec_value, is_u32_numeral, numeral_digits, parse_u32, u32_to_dec};
use crate::text::{join_chars, join_strings, split_chars, split_str, str_eq, views_of};
use vstd::math::min;

verus! {

/// The flat id map for the subordinate range `[start, end)` with an
/// optional pinned row `inside -> outside`, as triples
/// `(inside, outside, length)` laid out flat.
pub open spec fn mapping_spec(start: u32, end: u32, preserve: Option<(u32, u32)>) -> Seq<u32> {
    let len = (end - start) as u32;
    match preserve {
        Some((pi, po)) => {
            let before: u32 = if len < pi {
                len
            } else {
                pi
            };
            let head: Seq<u32> = if before > 0 {
                seq![0u32, start, before]
            } else {
                Seq::empty()
            };
            let tail: Seq<u32> = if len > before {
                seq![(before + 1) as u32, (start + before) as u32, (len - before) as u32]
            } else {
                Seq::empty()
            };
            head + seq![pi, po, 1u32] + tail
        },
        None => {
            if len > 0 {
                seq![0u32, start, len]
            } else {
                Seq::empty()
            }
        },
    }
}

/// Computes the id map covering the whole subordinate range, optionally
/// pinning one host id to one inside id.
pub fn compute_mapping(subrange: Range<u32>, preserve: Option<(u32, u32)>) -> (r: Vec<u32>)
    requires
        subrange.start <= subrange.end,
        preserve matches Some((pi, _)) ==> min(
            (subrange.end - subrange.start) as int,
            pi as int,
        ) < u32::MAX as int,
    ensures
        r@ == mapping_spec(subrange.start, subrange.end, preserve),
{
    let start = subrange.start;
    let end = subrange.end;
    let len = end - start;
    let mut r: Vec<u32> = Vec::new();
    match preserve {
        Some((pi, po)) => {
            let before = if len < pi {
                len
            } else {
                pi
            };
            if before > 0 {
                r.push(0);
                r.push(start);
                r.push(before);
            }
            r.push(pi);
            r.push(po);
            r.push(1);
            if len > before {
                r.push(before + 1);
                r.push(start + before);
                r.push(len - before);
            }
            proof {
                assert(r@ =~= mapping_spec(start, end, preserve));
            }
        },
        None => {
            if len > 0 {
                r.push(0);
                r.push(start);
                r.push(len);
            }
            proof {
                assert(r@ =~= mapping_spec(start, end, preserve));
            }
        },
    }
    r
}

/// The number of `(inside, outside, length)` triples in a flat map.
pub open spec fn n_triples(m: Seq<u32>) -> int {
    m.len() as int / 3
}

pub open spec fn triple_at(m: Seq<u32>, t: int) -> (u32, u32, u32) {
    (m[3 * t], m[3 * t + 1], m[3 * t + 2])
}

/// Some triple's inside interval holds `x`.
pub open spec fn inside_covers(m: Seq<u32>, x: int) -> bool {
    exists|t: int|
        0 <= t < n_triples(m) && (#[trigger] triple_at(m, t)).0 <= x < triple_at(m, t).0 as int
            + triple_at(m, t).2 as int
}

/// The sum of the triples' lengths.
pub open spec fn total_length(m: Seq<u32>) -> int
    decreases m.len(),
{
    if m.len() < 3 {
        0
    } else {
        m[2] as int + total_length(m.skip(3))
    }
}

/// No two distinct triples' inside intervals share an id.
pub open spec fn no_inside_overlap(m: Seq<u32>) -> bool {
    forall|t1: int, t2: int|
        (0 <= t1 < n_triples(m) && 0 <= t2 < n_triples(m) && t1 != t2) ==> ((#[trigger] triple_at(
            m,
            t1,
        )).0 as int + triple_at(m, t1).2 as int <= (#[trigger] triple_at(m, t2)).0 as int
            || triple_at(m, t2).0 as int + triple_at(m, t2).2 as int <= triple_at(m, t1).0 as int)
}

/// No two distinct triples' outside intervals share an id.
pub open spec fn no_outside_overlap(m: Seq<u32>) -> bool {
    forall|t1: int, t2: int|
        (0 <= t1 < n_triples(m) && 0 <= t2 < n_triples(m) && t1 != t2) ==> ((#[trigger] triple_at(
            m,
            t1,
        )).1 as int + triple_at(m, t1).2 as int <= (#[trigger] triple_at(m, t2)).1 as int
            || triple_at(m, t2).1 as int + triple_at(m, t2).2 as int <= triple_at(m, t1).1 as int)
}

/// Exactly one triple is the pinned row `(pi, po, 1)`.
pub open spec fn pinned_once(m: Seq<u32>, pi: u32, po: u32) -> bool {
    &&& exists|t: int| 0 <= t < n_triples(m) && #[trigger] triple_at(m, t) == (pi, po, 1u32)
    &&& forall|t1: int, t2: int|
        (0 <= t1 < n_triples(m) && 0 <= t2 < n_triples(m) && #[trigger] triple_at(m, t1) == (
        pi,
        po,
        1u32,
        ) && #[trigger] triple_at(m, t2) == (pi, po, 1u32)) ==> t1 == t2
}

/// What the computed map guarantees: the inside intervals tile the range
/// `[0, covered)` exactly and without overlap, `covered` is the sum of the
/// lengths, and the pinned row appears exactly once — all provided the
/// pinned inside id falls within the range's length. The outside intervals
/// are pairwise disjoint provided the pinned outside id also lies outside
/// the subordinate range; a pinned outside id inside the leftover range
/// genuinely overlaps it.
pub proof fn lemma_mapping_properties(start: u32, end: u32, preserve: Option<(u32, u32)>)
    requires
        start <= end,
        preserve matches Some((pi, _)) ==> pi as int <= end - start,
    ensures
        mapping_spec(start, end, preserve).len() % 3 == 0,
        total_length(mapping_spec(start, end, preserve)) == (end - start) + (match preserve {
            Some(_) => 1int,
            None => 0int,
        }),
        forall|x: int| inside_covers(mapping_spec(start, end, preserve), x) <==> 0 <= x
            < total_length(mapping_spec(start, end, preserve)),
        no_inside_overlap(mapping_spec(start, end, preserve)),
        preserve matches Some((pi, po)) ==> pinned_once(mapping_spec(start, end, preserve), pi, po),
        (preserve matches Some((_, po)) ==> !(start <= po < end)) ==> no_outside_overlap(
            mapping_spec(start, end, preserve),
        ),
{
    reveal_with_fuel(total_length, 5);
    let m = mapping_spec(start, end, preserve);
    let len = (end - start) as u32;
    match preserve {
        Some((pi, po)) => {
            let before: u32 = if len < pi {
                len
            } else {
                pi
            };
            assert(before == pi);
            if before > 0 && len > before {
                assert(m =~= seq![
                    0u32,
                    start,
                    before,
                    pi,
                    po,
                    1u32,
                    (before + 1) as u32,
                    (start + before) as u32,
                    (len - before) as u32,
                ]);
                assert(m.skip(3) =~= seq![
                    pi,
                    po,
                    1u32,
                    (before + 1) as u32,
                    (start + before) as u32,
                    (len - before) as u32,
                ]);
                assert(m.skip(3).skip(3) =~= seq![
                    (before + 1) as u32,
                    (start + before) as u32,
                    (len - before) as u32,
                ]);
                assert(m.skip(3).skip(3).skip(3) =~= Seq::<u32>::empty());
                assert(total_length(m) == len + 1);
                assert(n_triples(m) == 3);
                assert(triple_at(m, 0) == (0u32, start, before));
                assert(triple_at(m, 1) == (pi, po, 1u32));
                assert(triple_at(m, 2) == ((before + 1) as u32, (start + before) as u32, (len
                    - before) as u32));
                assert forall|x: int| inside_covers(m, x) implies 0 <= x < total_length(m) by {}
                assert forall|x: int| 0 <= x < total_length(m) implies inside_covers(m, x) by {
                    if x < before {
                        assert(triple_at(m, 0).0 <= x < triple_at(m, 0).0 as int + triple_at(
                            m,
                            0,
                        ).2 as int);
                    } else if x == before {
                        assert(triple_at(m, 1).0 <= x < triple_at(m, 1).0 as int + triple_at(
                            m,
                            1,
                        ).2 as int);
                    } else {
                        assert(triple_at(m, 2).0 <= x < triple_at(m, 2).0 as int + triple_at(
                            m,
                            2,
                        ).2 as int);
                    }
                }
            } else if before > 0 {
                assert(m =~= seq![0u32, start, before, pi, po, 1u32]);
                assert(m.skip(3) =~= seq![pi, po, 1u32]);
                assert(m.skip(3).skip(3) =~= Seq::<u32>::empty());
                assert(total_length(m) == len + 1);
                assert(n_triples(m) == 2);
                assert(triple_at(m, 0) == (0u32, start, before));
                assert(triple_at(m, 1) == (pi, po, 1u32));
                assert forall|x: int| 0 <= x < total_length(m) implies inside_covers(m, x) by {
                    if x < before {
                        assert(triple_at(m, 0).0 <= x < triple_at(m, 0).0 as int + triple_at(
                            m,
                            0,
                        ).2 as int);
                    } else {
                        assert(triple_at(m, 1).0 <= x < triple_at(m, 1).0 as int + triple_at(
                            m,
                            1,
                        ).2 as int);
                    }
                }
            } else if len > before {
                assert(m =~= seq![
                    pi,
                    po,
                    1u32,
                    (before + 1) as u32,
                    (start + before) as u32,
                    (len - before) as u32,
                ]);
                assert(m.skip(3) =~= seq![
                    (before + 1) as u32,
                    (start + before) as u32,
                    (len - before) as u32,
                ]);
                assert(m.skip(3).skip(3) =~= Seq::<u32>::empty());
                assert(total_length(m) == len + 1);
                assert(n_triples(m) == 2);
                assert(triple_at(m, 0) == (pi, po, 1u32));
                assert(triple_at(m, 1) == ((before + 1) as u32, (start + before) as u32, (len
                    - before) as u32));
                assert forall|x: int| 0 <= x < total_length(m) implies inside_covers(m, x) by {
                    if x == 0 {
                        assert(triple_at(m, 0).0 <= x < triple_at(m, 0).0 as int + triple_at(
                            m,
                            0,
                        ).2 as int);
                    } else {
                        assert(triple_at(m, 1).0 <= x < triple_at(m, 1).0 as int + triple_at(
                            m,
                            1,
                        ).2 as int);
                    }
                }
            } else {
                assert(m =~= seq![pi, po, 1u32]);
                assert(m.skip(3) =~= Seq::<u32>::empty());
                assert(total_length(m) == 1);
                assert(n_triples(m) == 1);
                assert(triple_at(m, 0) == (pi, po, 1u32));
                assert forall|x: int| 0 <= x < total_length(m) implies inside_covers(m, x) by {
                    assert(triple_at(m, 0).0 <= x < triple_at(m, 0).0 as int + triple_at(
                        m,
                        0,
                    ).2 as int);
                }
            }
        },
        None => {
            if len > 0 {
                assert(m =~= seq![0u32, start, len]);
                assert(m.skip(3) =~= Seq::<u32>::empty());
                assert(total_length(m) == len);
                assert(n_triples(m) == 1);
                assert(triple_at(m, 0) == (0u32, start, len));
                assert forall|x: int| 0 <= x < total_length(m) implies inside_covers(m, x) by {
                    assert(triple_at(m, 0).0 <= x < triple_at(m, 0).0 as int + triple_at(
                        m,
                        0,
                    ).2 as int);
                }
            } else {
                assert(m =~= Seq::<u32>::empty());
                assert(n_triples(m) == 0);
                assert(total_length(m) == 0);
            }
        },
    }
}

/// The space-separated decimal rendering of the flat map, as the mapping
/// helpers take it on their command line.
pub fn flatten(values: &Vec<u32>) -> (r: String)
    ensures
        r@ == join_chars(values@.map_values(|v: u32| dec_chars(v as nat)), ' '),
{
    let mut parts: Vec<String> = Vec::new();
    let mut i: usize = 0;
    while i < values.len()
        invariant
            i <= values@.len(),
            views_of(parts@) =~= values@.take(i as int).map_values(|v: u32| dec_chars(v as nat)),
        decreases values@.len() - i,
    {
        let s = u32_to_dec(values[i]);
        proof {
            let f = |v: u32| dec_chars(v as nat);
            assert(views_of(parts@.push(s)) =~= views_of(parts@).push(s@));
            assert(values@.take(i + 1).map_values(f) =~= values@.take(i as int).map_values(f).push(
                f(values@[i as int]),
            ));
        }
        parts.push(s);
        i += 1;
    }
    proof {
        let f = |v: u32| dec_chars(v as nat);
        assert(values@.take(values@.len() as int) =~= values@);
        reveal_strlit(" ");
        assert(" "@ =~= seq![' ']);
    }
    join_strings(&parts, " ")
}

/// Scans `subuid`-shaped text for the user's line: colon-separated fields,
/// the first naming the user, the next two the range start and length. The
/// first line naming the user decides; a malformed one is an error.
pub open spec fn subid_line_result(line: Seq<char>, username: Seq<char>) -> Result<
    Option<(u32, u32)>,
    Error,
> {
    let fields = split_chars(line, ':');
    if fields[0] != username {
        Ok(None)
    } else if fields.len() >= 3 && is_u32_numeral(fields[1]) && is_u32_numeral(fields[2]) {
        Ok(
            Some(
                (
                    dec_value(numeral_digits(fields[1])) as u32,
                    dec_value(numeral_digits(fields[2])) as u32,
                ),
            ),
        )
    } else {
        Err(Error::MalformedSubidLine)
    }
}

/// One line of subordinate-id text: the user's `(start, length)` pair if
/// the line is the user's.
pub fn parse_subid_line(line: &str, username: &str) -> (r: Result<Option<(u32, u32)>, Error>)
    ensures
        r == subid_line_result(line@, username@),
{
    let fields = split_str(line, ':');
    proof {
        crate::text::lemma_split_from_len(line@, ':', Seq::empty());
    }
    if !str_eq(fields[0].as_str(), username) {
        return Ok(None);
    }
    if fields.len() < 3 {
        return Err(Error::MalformedSubidLine);
    }
    let start = parse_u32(fields[1].as_str());
    let len = parse_u32(fields[2].as_str());
    match (start, len) {
        (Some(s), Some(l)) => Ok(Some((s, l))),
        _ => Err(Error::MalformedSubidLine),
    }
}

/// The result of scanning whole subordinate-id text, line by line.
pub open spec fn find_range_spec(lines: Seq<Seq<char>>, username: Seq<char>) -> Result<
    Option<(u32, u32)>,
    Error,
>
    decreases lines.len(),
{
    if lines.len() == 0 {
        Ok(None)
    } else {
        match subid_line_result(lines[0], username) {
            Ok(None) => find_range_spec(lines.drop_first(), username),
            other => other,
        }
    }
}

/// Scans subordinate-id text for the user's range as `(start, length)`.
/// The text is the content of `/etc/subuid` or `/etc/subgid`.
pub fn find_range(text: &str, username: &str) -> (r: Result<Option<(u32, u32)>, Error>)
    ensures
        r == find_range_spec(split_chars(text@, '\n'), username@),
{
    let lines = split_str(text, '\n');
    let ghost all = split_chars(text@, '\n');
    let mut i: usize = 0;
    proof {
        assert(all.skip(0) =~= all);
    }
    while i < lines.len()
        invariant
            all == split_chars(text@, '\n'),
            views_of(lines@) == all,
            i <= lines@.len(),
            find_range_spec(all, username@) == find_range_spec(all.skip(i as int), username@),
        decreases lines@.len() - i,
    {
        proof {
            assert(all.skip(i as int)[0] == lines@[i as int]@);
            assert(all.skip(i as int).drop_first() =~= all.skip(i + 1));
        }
        let res = parse_subid_line(lines[i].as_str(), username);
        let done = match &res {
            Ok(None) => false,
            _ => true,
        };
        if done {
            proof {
                assert(res != Ok::<Option<(u32, u32)>, Error>(None));
                assert(subid_line_result(all.skip(i as int)[0], username@) != Ok::<
                    Option<(u32, u32)>,
                    Error,
                >(None));
                assert(find_range_spec(all.skip(i as int), username@) == subid_line_result(
                    all.skip(i as int)[0],
                    username@,
                ));
                assert(res == find_range_spec(all, username@));
            }
            return res;
        }
        i += 1;
    }
    proof {
        assert(all.skip(lines@.len() as int) =~= Seq::<Seq<char>>::empty());
    }
    Ok(None)
}

/// Which host id, if any, the map pins inside the sandbox.
#[derive(Clone, Copy, Debug, PartialEq, Eq, Structural)]
pub enum MappingType {
    /// Flat map of the subordinate range alone.
    NoPreserve,
    /// Pin the host uid/gid to 0:0 inside.
    PreserveAsRoot,
    /// Pin the host uid/gid to the target uid/gid inside.
    PreserveAsUser,
}

/// How the user namespace is to be prepared.
#[derive(Clone, Copy, Debug, PartialEq, Eq, Structural)]
pub enum SandboxType {
    /// A single uid/gid mapping written by the process itself.
    Simple,
    /// The mapping helpers must be used; fail without subordinate ranges.
    RequireMapping(MappingType),
    /// Use the mapping helpers when subordinate ranges exist, else fall
    /// back to the single mapping.
    TryMapping(MappingType),
}

/// The pinned uid row and gid row asked for by a mapping mode.
pub open spec fn preserve_pair_spec(m: MappingType, target_uid: u32, target_gid: u32, host_uid: u32, host_gid: u32) -> (
    Option<(u32, u32)>,
    Option<(u32, u32)>,
) {
    match m {
        MappingType::NoPreserve => (None, None),
        MappingType::PreserveAsRoot => (Some((0u32, host_uid)), Some((0u32, host_gid))),
        MappingType::PreserveAsUser => (
            Some((target_uid, host_uid)),
            Some((target_gid, host_gid)),
        ),
    }
}

pub fn preserve_pair(m: &MappingType, target_uid: u32, target_gid: u32, host_uid: u32, host_gid: u32) -> (r: (
    Option<(u32, u32)>,
    Option<(u32, u32)>,
))
    ensures
        r == preserve_pair_spec(*m, target_uid, target_gid, host_uid, host_gid),
{
    match m {
        MappingType::NoPreserve => (None, None),
        MappingType::PreserveAsRoot => (Some((0, host_uid)), Some((0, host_gid))),
        MappingType::PreserveAsUser => (
            Some((target_uid, host_uid)),
            Some((target_gid, host_gid)),
        ),
    }
}

/// The mapping mode a sandbox type asks for, none for the simple path.
pub open spec fn mapping_mode(st: SandboxType) -> Option<MappingType> {
    match st {
        SandboxType::Simple => None,
        SandboxType::RequireMapping(m) => Some(m),
        SandboxType::TryMapping(m) => Some(m),
    }
}

/// The prepared user-namespace work: either the flat maps for the external
/// helpers, or the single self-written mapping.
#[derive(Debug)]
pub enum UserNsPlan {
    Helpers { uidmap: Vec<u32>, gidmap: Vec<u32> },
    Simple,
}

/// A pinned row stays clear of the arithmetic limit of the map.
pub open spec fn pin_ok(len: u32, pin: Option<(u32, u32)>) -> bool {
    pin matches Some((pi, _)) ==> min(len as int, pi as int) < u32::MAX as int
}

/// The planned outcome for given strategy, identities and ranges.
pub open spec fn userns_plan_matches(
    r: Result<UserNsPlan, Error>,
    st: SandboxType,
    target_uid: u32,
    target_gid: u32,
    host_uid: u32,
    host_gid: u32,
    uid_range: Option<(u32, u32)>,
    gid_range: Option<(u32, u32)>,
) -> bool {
    match mapping_mode(st) {
        None => r == Ok::<UserNsPlan, Error>(UserNsPlan::Simple),
        Some(m) => match (uid_range, gid_range) {
            (Some((us, ul)), Some((gs, gl))) => {
                let pins = preserve_pair_spec(m, target_uid, target_gid, host_uid, host_gid);
                if us as int + ul as int > u32::MAX as int || gs as int + gl as int
                    > u32::MAX as int {
                    r == Err::<UserNsPlan, Error>(Error::MalformedSubidLine)
                } else if !pin_ok(ul, pins.0) || !pin_ok(gl, pins.1) {
                    r == Err::<UserNsPlan, Error>(Error::MalformedSubidLine)
                } else {
                    r matches Ok(UserNsPlan::Helpers { uidmap, gidmap }) && uidmap@
                        == mapping_spec(us, (us + ul) as u32, pins.0) && gidmap@ == mapping_spec(
                        gs,
                        (gs + gl) as u32,
                        pins.1,
                    )
                }
            },
            _ => {
                if st matches SandboxType::RequireMapping(_) {
                    r == Err::<UserNsPlan, Error>(Error::MappingRequired)
                } else {
                    r == Ok::<UserNsPlan, Error>(UserNsPlan::Simple)
                }
            },
        },
    }
}

/// Decides the user-namespace strategy: the helpers with full-range maps
/// where subordinate ranges are at hand, the single mapping where the
/// strategy allows falling back, an error where it does not or where a
/// range's end cannot be represented.
pub fn plan_userns(
    st: &SandboxType,
    target_uid: u32,
    target_gid: u32,
    host_uid: u32,
    host_gid: u32,
    uid_range: Option<(u32, u32)>,
    gid_range: Option<(u32, u32)>,
) -> (r: Result<UserNsPlan, Error>)
    ensures
        userns_plan_matches(r, *st, target_uid, target_gid, host_uid, host_gid, uid_range, gid_range),
{
    let m = match st {
        SandboxType::Simple => {
            return Ok(UserNsPlan::Simple);
        },
        SandboxType::RequireMapping(m) => m,
        SandboxType::TryMapping(m) => m,
    };
    let (ur, gr) = match (uid_range, gid_range) {
        (Some(u), Some(g)) => (u, g),
        _ => {
            if let SandboxType::RequireMapping(_) = st {
                return Err(Error::MappingRequired);
            }
            return Ok(UserNsPlan::Simple);
        },
    };
    let (us, ul) = ur;
    let (gs, gl) = gr;
    if us > u32::MAX - ul || gs > u32::MAX - gl {
        return Err(Error::MalformedSubidLine);
    }
    let (upin, gpin) = preserve_pair(m, target_uid, target_gid, host_uid, host_gid);
    let upin_bad = match upin {
        Some((pi, _)) => ul == u32::MAX && pi == u32::MAX,
        None => false,
    };
    let gpin_bad = match gpin {
        Some((pi, _)) => gl == u32::MAX && pi == u32::MAX,
        None => false,
    };
    if upin_bad || gpin_bad {
        return Err(Error::MalformedSubidLine);
    }
    let uidmap = compute_mapping(us..us + ul, upin);
    let gidmap = compute_mapping(gs..gs + gl, gpin);
    Ok(UserNsPlan::Helpers { uidmap, gidmap })
}

/// The shell script run by the helper path: it waits for one line on its
/// standard input, then writes the maps for the given process.
pub fn helper_script(pid: u32, uidmap: &str, gidmap: &str) -> (r: String)
    ensures
        r@ == "read; newuidmap "@ + dec_chars(pid as nat) + " "@ + uidmap@ + "; newgidmap "@
            + dec_chars(pid as nat) + " "@ + gidmap@ + ";"@,
{
    let mut s = String::new();
    s.append("read; newuidmap ");
    let pid_dec = u32_to_dec(pid);
    s.append(pid_dec.as_str());
    s.append(" ");
    s.append(uidmap);
    s.append("; newgidmap ");
    s.append(pid_dec.as_str());
    s.append(" ");
    s.append(gidmap);
    s.append(";");
    s
}

/// One line of a `/proc/self/uid_map` or `gid_map` write for the single
/// mapping: `inside outside 1`, newline-terminated.
pub fn map_file_line(inside: u32, outside: u32) -> (r: String)
    ensures
        r@ == dec_chars(inside as nat) + " "@ + dec_chars(outside as nat) + " 1\n"@,
{
    let mut s = u32_to_dec(inside);
    s.append(" ");
    let o = u32_to_dec(outside);
    s.append(o.as_str());
    s.append(" 1\n");
    s
}

} // verus!
