//! Backend frame decoding: each complete line is parsed as one backend
//! response frame `{"response": <text>, "done": <bool>}`. The grammar is a
//! self-contained JSON object reader: members may come in any order, unknown
//! members are skipped as balanced raw spans, and string values decode the
//! one-character escapes and `\uXXXX` escapes, surrogate pairs included.
//! Lines that do not fit the grammar (empty lines, missing or duplicated
//! `response`/`done` members, unpaired surrogates) yield no frame and are
//! dropped by the caller.

use vstd::prelude::*;

use crate::lines::is_ws;
use crate::lines::is_ws_byte;

verus! {

/// One parsed unit of backend output: a text fragment and the final-frame
/// marker.
pub struct BackendFrame {
    /// The bytes of the `response` member, escapes decoded.
    pub fragment: Vec<u8>,
    /// The value of the `done` member.
    pub done: bool,
}

/// The suffix of `s` after its leading whitespace.
pub open spec fn sp_ws(s: Seq<u8>) -> Seq<u8>
    decreases s.len(),
{
    if s.len() > 0 && is_ws(s[0]) {
        sp_ws(s.skip(1))
    } else {
        s
    }
}

/// The byte denoted by the escape `\e`, for the one-character escapes.
pub open spec fn esc_byte(e: u8) -> Option<u8> {
    if e == 34 {
        Some(34u8)
    } else if e == 92 {
        Some(92u8)
    } else if e == 47 {
        Some(47u8)
    } else if e == 98 {
        Some(8u8)
    } else if e == 102 {
        Some(12u8)
    } else if e == 110 {
        Some(10u8)
    } else if e == 114 {
        Some(13u8)
    } else if e == 116 {
        Some(9u8)
    } else {
        None
    }
}

/// The value of one hex digit, lower or upper case.
pub open spec fn hex_val(b: u8) -> Option<nat> {
    if 48 <= b <= 57 {
        Some((b - 48) as nat)
    } else if 97 <= b <= 102 {
        Some((b - 87) as nat)
    } else if 65 <= b <= 70 {
        Some((b - 55) as nat)
    } else {
        None
    }
}

/// The value of the four hex digits at the head of `s`.
pub open spec fn hex4(s: Seq<u8>) -> Option<nat> {
    if s.len() >= 4 {
        match (hex_val(s[0]), hex_val(s[1]), hex_val(s[2]), hex_val(s[3])) {
            (Some(a), Some(b), Some(c), Some(d)) => Some(a * 0x1000 + b * 0x100 + c * 0x10 + d),
            _ => None,
        }
    } else {
        None
    }
}

/// The UTF-8 encoding of the code point `cp`.
pub open spec fn utf8_enc(cp: nat) -> Seq<u8> {
    if cp < 0x80 {
        seq![cp as u8]
    } else if cp < 0x800 {
        seq![(0xC0 + cp / 0x40) as u8, (0x80 + cp % 0x40) as u8]
    } else if cp < 0x10000 {
        seq![(0xE0 + cp / 0x1000) as u8, (0x80 + (cp / 0x40) % 0x40) as u8, (0x80 + cp % 0x40) as u8]
    } else {
        seq![
            (0xF0 + cp / 0x40000) as u8,
            (0x80 + (cp / 0x1000) % 0x40) as u8,
            (0x80 + (cp / 0x40) % 0x40) as u8,
            (0x80 + cp % 0x40) as u8,
        ]
    }
}

/// Parses a string body positioned just after the opening quote: yields the
/// decoded content and the suffix after the closing quote, or `None` when
/// the string is unterminated, holds a raw control byte, or uses a broken
/// escape. A `\uXXXX` escape becomes the UTF-8 bytes of its code point; a
/// high surrogate must be followed by a low surrogate escape, and the pair
/// becomes one supplementary code point.
pub open spec fn sp_str(s: Seq<u8>) -> Option<(Seq<u8>, Seq<u8>)>
    decreases s.len(),
{
    if s.len() == 0 {
        None
    } else if s[0] == 34 {
        Some((Seq::<u8>::empty(), s.skip(1)))
    } else if s[0] == 92 {
        if s.len() >= 2 {
            if s[1] == 117 {
                if s.len() >= 6 {
                    match hex4(s.skip(2)) {
                        None => None,
                        Some(cp) => {
                            if 0xD800 <= cp < 0xDC00 {
                                if s.len() >= 12 && s[6] == 92 && s[7] == 117 {
                                    match hex4(s.skip(8)) {
                                        None => None,
                                        Some(cp2) => {
                                            if 0xDC00 <= cp2 < 0xE000 {
                                                match sp_str(s.skip(12)) {
                                                    Some(p) => Some(
                                                        (
                                                            utf8_enc(
                                                                (0x10000 + (cp - 0xD800) * 0x400
                                                                    + (cp2 - 0xDC00)) as nat,
                                                            ) + p.0,
                                                            p.1,
                                                        ),
                                                    ),
                                                    None => None,
                                                }
                                            } else {
                                                None
                                            }
                                        },
                                    }
                                } else {
                                    None
                                }
                            } else if 0xDC00 <= cp < 0xE000 {
                                None
                            } else {
                                match sp_str(s.skip(6)) {
                                    Some(p) => Some((utf8_enc(cp) + p.0, p.1)),
                                    None => None,
                                }
                            }
                        },
                    }
                } else {
                    None
                }
            } else {
                match esc_byte(s[1]) {
                    Some(d) => match sp_str(s.skip(2)) {
                        Some(p) => Some((seq![d] + p.0, p.1)),
                        None => None,
                    },
                    None => None,
                }
            }
        } else {
            None
        }
    } else if s[0] < 32 {
        None
    } else {
        match sp_str(s.skip(1)) {
            Some(p) => Some((seq![s[0]] + p.0, p.1)),
            None => None,
        }
    }
}

/// Skips one raw member value: scans bytes, tracking string state and
/// bracket depth, until the `,` or `}` that ends the member at depth zero;
/// that byte is left in the returned suffix. At least one byte must belong
/// to the value.
pub open spec fn sp_raw(s: Seq<u8>, depth: nat, in_str: bool, esc: bool, seen: bool) -> Option<
    Seq<u8>,
>
    decreases s.len(),
{
    if s.len() == 0 {
        None
    } else {
        let c = s[0];
        if in_str {
            if esc {
                sp_raw(s.skip(1), depth, true, false, seen)
            } else if c == 92 {
                sp_raw(s.skip(1), depth, true, true, seen)
            } else if c == 34 {
                sp_raw(s.skip(1), depth, false, false, seen)
            } else {
                sp_raw(s.skip(1), depth, true, false, seen)
            }
        } else if depth == 0 && seen && (c == 44 || c == 125) {
            Some(s)
        } else if c == 34 {
            sp_raw(s.skip(1), depth, true, false, true)
        } else if c == 123 || c == 91 {
            sp_raw(s.skip(1), depth + 1, false, false, true)
        } else if c == 125 || c == 93 {
            if depth > 0 {
                sp_raw(s.skip(1), (depth - 1) as nat, false, false, true)
            } else {
                None
            }
        } else {
            sp_raw(s.skip(1), depth, false, false, true)
        }
    }
}

/// Parses the literal `true` or `false` at the head of `s`.
pub open spec fn sp_bool(s: Seq<u8>) -> Option<(bool, Seq<u8>)> {
    if s.len() >= 4 && s[0] == 116 && s[1] == 114 && s[2] == 117 && s[3] == 101 {
        Some((true, s.skip(4)))
    } else if s.len() >= 5 && s[0] == 102 && s[1] == 97 && s[2] == 108 && s[3] == 115 && s[4]
        == 101 {
        Some((false, s.skip(5)))
    } else {
        None
    }
}

/// The bytes of the member name `response`.
pub open spec fn response_key() -> Seq<u8> {
    seq![114u8, 101u8, 115u8, 112u8, 111u8, 110u8, 115u8, 101u8]
}

/// The bytes of the member name `done`.
pub open spec fn done_key() -> Seq<u8> {
    seq![100u8, 111u8, 110u8, 101u8]
}

/// Parses the members of the frame object, positioned at the opening quote
/// of a member name; `resp` and `done` hold the members already seen. A
/// duplicated known member fails the parse. `fuel` bounds the number of
/// members.
pub open spec fn sp_members(
    s: Seq<u8>,
    resp: Option<Seq<u8>>,
    done: Option<bool>,
    fuel: nat,
) -> Option<(Seq<u8>, bool)>
    decreases fuel, 0nat,
{
    if fuel == 0 {
        None
    } else if s.len() == 0 || s[0] != 34 {
        None
    } else {
        match sp_str(s.skip(1)) {
            None => None,
            Some(kp) => {
                let r2 = sp_ws(kp.1);
                if r2.len() == 0 || r2[0] != 58 {
                    None
                } else {
                    let r3 = sp_ws(r2.skip(1));
                    if kp.0 == response_key() {
                        if resp is Some {
                            None
                        } else if r3.len() > 0 && r3[0] == 34 {
                            match sp_str(r3.skip(1)) {
                                None => None,
                                Some(vp) => sp_after_value(
                                    vp.1,
                                    Some(vp.0),
                                    done,
                                    (fuel - 1) as nat,
                                ),
                            }
                        } else {
                            None
                        }
                    } else if kp.0 == done_key() {
                        if done is Some {
                            None
                        } else {
                            match sp_bool(r3) {
                                None => None,
                                Some(bp) => sp_after_value(
                                    bp.1,
                                    resp,
                                    Some(bp.0),
                                    (fuel - 1) as nat,
                                ),
                            }
                        }
                    } else {
                        match sp_raw(r3, 0, false, false, false) {
                            None => None,
                            Some(r4) => sp_after_value(r4, resp, done, (fuel - 1) as nat),
                        }
                    }
                }
            },
        }
    }
}

/// Parses what follows a member value: either a `,` and further members, or
/// the closing `}` followed only by whitespace, in which case both known
/// members must have been seen.
pub open spec fn sp_after_value(
    s: Seq<u8>,
    resp: Option<Seq<u8>>,
    done: Option<bool>,
    fuel: nat,
) -> Option<(Seq<u8>, bool)>
    decreases fuel, 1nat,
{
    let r = sp_ws(s);
    if r.len() == 0 {
        None
    } else if r[0] == 44 {
        sp_members(sp_ws(r.skip(1)), resp, done, fuel)
    } else if r[0] == 125 {
        if sp_ws(r.skip(1)).len() == 0 {
            if resp is Some && done is Some {
                Some((resp->Some_0, done->Some_0))
            } else {
                None
            }
        } else {
            None
        }
    } else {
        None
    }
}

/// What decoding yields of one line: the fragment bytes and the final-frame
/// marker of a well-formed frame object, or nothing.
pub open spec fn decode_spec(line: Seq<u8>) -> Option<(Seq<u8>, bool)> {
    let s = sp_ws(line);
    if s.len() > 0 && s[0] == 123 {
        sp_members(sp_ws(s.skip(1)), None, None, line.len())
    } else {
        None
    }
}

/// The fragment and marker of an exec option of already-seen members.
pub open spec fn ov(resp: Option<Vec<u8>>) -> Option<Seq<u8>> {
    match resp {
        Some(f) => Some(f@),
        None => None,
    }
}

/// Advances `pos` over whitespace.
fn skip_ws(v: &Vec<u8>, pos: usize) -> (p: usize)
    requires
        pos <= v.len(),
    ensures
        pos <= p <= v.len(),
        sp_ws(v@.skip(pos as int)) == v@.skip(p as int),
{
    let mut p: usize = pos;
    while p < v.len() && is_ws_byte(v[p])
        invariant
            pos <= p <= v.len(),
            sp_ws(v@.skip(pos as int)) == sp_ws(v@.skip(p as int)),
        decreases v.len() - p,
    {
        proof {
            assert(v@.skip(p as int)[0] == v@[p as int]);
            assert(v@.skip(p as int).skip(1) =~= v@.skip(p as int + 1));
        }
        p = p + 1;
    }
    proof {
        if p < v.len() {
            assert(v@.skip(p as int)[0] == v@[p as int]);
        }
    }
    p
}

/// Whether `e` denotes a one-character escape; agrees with `esc_byte`.
fn esc_byte_exec(e: u8) -> (r: Option<u8>)
    ensures
        r == esc_byte(e),
{
    if e == 34 {
        Some(34u8)
    } else if e == 92 {
        Some(92u8)
    } else if e == 47 {
        Some(47u8)
    } else if e == 98 {
        Some(8u8)
    } else if e == 102 {
        Some(12u8)
    } else if e == 110 {
        Some(10u8)
    } else if e == 114 {
        Some(13u8)
    } else if e == 116 {
        Some(9u8)
    } else {
        None
    }
}

/// The value of one hex digit; agrees with `hex_val`.
fn hex_val_exec(b: u8) -> (r: Option<u8>)
    ensures
        match r {
            Some(n) => n < 16 && hex_val(b) == Some(n as nat),
            None => hex_val(b) is None,
        },
{
    if 48 <= b && b <= 57 {
        Some(b - 48)
    } else if 97 <= b && b <= 102 {
        Some(b - 87)
    } else if 65 <= b && b <= 70 {
        Some(b - 55)
    } else {
        None
    }
}

/// The value of the four hex digits at `pos`; agrees with `hex4`.
fn hex4_exec(v: &Vec<u8>, pos: usize) -> (r: Option<u32>)
    requires
        pos <= v.len(),
    ensures
        match r {
            Some(cp) => cp < 0x10000 && hex4(v@.skip(pos as int)) == Some(cp as nat),
            None => hex4(v@.skip(pos as int)) is None,
        },
{
    if v.len() - pos < 4 {
        return None;
    }
    proof {
        let s = v@.skip(pos as int);
        assert(s.len() == v@.len() - pos);
        assert forall|k: int| 0 <= k < s.len() implies s[k] == v@[pos + k] by {}
    }
    match (hex_val_exec(v[pos]), hex_val_exec(v[pos + 1]), hex_val_exec(v[pos + 2]), hex_val_exec(
        v[pos + 3],
    )) {
        (Some(a), Some(b), Some(c), Some(d)) => Some(
            (a as u32) * 0x1000 + (b as u32) * 0x100 + (c as u32) * 0x10 + (d as u32),
        ),
        _ => None,
    }
}

/// Appends the UTF-8 encoding of the code point `cp`.
fn push_utf8(out: &mut Vec<u8>, cp: u32)
    requires
        cp < 0x110000,
    ensures
        final(out)@ == old(out)@ + utf8_enc(cp as nat),
{
    if cp < 0x80 {
        out.push(cp as u8);
    } else if cp < 0x800 {
        out.push((0xC0 + cp / 0x40) as u8);
        out.push((0x80 + cp % 0x40) as u8);
    } else if cp < 0x10000 {
        out.push((0xE0 + cp / 0x1000) as u8);
        out.push((0x80 + (cp / 0x40) % 0x40) as u8);
        out.push((0x80 + cp % 0x40) as u8);
    } else {
        out.push((0xF0 + cp / 0x40000) as u8);
        out.push((0x80 + (cp / 0x1000) % 0x40) as u8);
        out.push((0x80 + (cp / 0x40) % 0x40) as u8);
        out.push((0x80 + cp % 0x40) as u8);
    }
    proof {
        assert(out@ =~= old(out)@ + utf8_enc(cp as nat));
    }
}

/// Parses a string body at `pos`, just after the opening quote.
#[verifier::rlimit(100)]
fn parse_str(v: &Vec<u8>, pos: usize) -> (r: Option<(Vec<u8>, usize)>)
    requires
        pos <= v.len(),
    ensures
        match r {
            Some(p) => p.1 <= v.len() && sp_str(v@.skip(pos as int)) == Some(
                (p.0@, v@.skip(p.1 as int)),
            ),
            None => sp_str(v@.skip(pos as int)) is None,
        },
{
    let mut out: Vec<u8> = Vec::new();
    let mut i: usize = pos;
    proof {
        assert(out@ + Seq::<u8>::empty() =~= out@);
    }
    loop
        invariant
            pos <= i <= v.len(),
            sp_str(v@.skip(pos as int)) == (match sp_str(v@.skip(i as int)) {
                Some(q) => Some((out@ + q.0, q.1)),
                None => None::<(Seq<u8>, Seq<u8>)>,
            }),
        decreases v.len() - i,
    {
        if i >= v.len() {
            return None;
        }
        let c = v[i];
        proof {
            assert(v@.skip(i as int)[0] == c);
            assert(v@.skip(i as int).skip(1) =~= v@.skip(i as int + 1));
        }
        if c == 34 {
            return Some((out, i + 1));
        } else if c == 92 {
            if v.len() - i < 2 {
                return None;
            }
            proof {
                assert(v@.skip(i as int)[1] == v@[i as int + 1]);
                assert(v@.skip(i as int).skip(2) =~= v@.skip(i as int + 2));
            }
            let e = v[i + 1];
            if e == 117 {
                if v.len() - i < 6 {
                    return None;
                }
                match hex4_exec(v, i + 2) {
                    None => {
                        return None;
                    },
                    Some(cp) => {
                        if 0xD800 <= cp && cp < 0xDC00 {
                            if v.len() - i < 12 {
                                return None;
                            }
                            proof {
                                assert(v@.skip(i as int)[6] == v@[i as int + 6]);
                                assert(v@.skip(i as int)[7] == v@[i as int + 7]);
                                assert(v@.skip(i as int).skip(8) =~= v@.skip(i as int + 8));
                                assert(v@.skip(i as int).skip(12) =~= v@.skip(i as int + 12));
                            }
                            if v[i + 6] != 92 || v[i + 7] != 117 {
                                return None;
                            }
                            match hex4_exec(v, i + 8) {
                                None => {
                                    return None;
                                },
                                Some(cp2) => {
                                    if !(0xDC00 <= cp2 && cp2 < 0xE000) {
                                        return None;
                                    }
                                    let combined: u32 = 0x10000 + (cp - 0xD800) * 0x400 + (cp2
                                        - 0xDC00);
                                    let ghost out_pre = out@;
                                    push_utf8(&mut out, combined);
                                    proof {
                                        let sub = sp_str(v@.skip(i as int + 12));
                                        if sub is Some {
                                            assert(out_pre + (utf8_enc(combined as nat)
                                                + sub->Some_0.0) =~= out@ + sub->Some_0.0);
                                        }
                                    }
                                    i = i + 12;
                                },
                            }
                        } else if 0xDC00 <= cp && cp < 0xE000 {
                            return None;
                        } else {
                            proof {
                                assert(v@.skip(i as int).skip(6) =~= v@.skip(i as int + 6));
                            }
                            let ghost out_pre = out@;
                            push_utf8(&mut out, cp);
                            proof {
                                let sub = sp_str(v@.skip(i as int + 6));
                                if sub is Some {
                                    assert(out_pre + (utf8_enc(cp as nat) + sub->Some_0.0) =~= out@
                                        + sub->Some_0.0);
                                }
                            }
                            i = i + 6;
                        }
                    },
                }
            } else {
                match esc_byte_exec(e) {
                    None => {
                        return None;
                    },
                    Some(d) => {
                        let ghost out_pre = out@;
                        out.push(d);
                        proof {
                            let sub = sp_str(v@.skip(i as int + 2));
                            if sub is Some {
                                assert(out_pre + (seq![d] + sub->Some_0.0) =~= out@
                                    + sub->Some_0.0);
                            }
                        }
                        i = i + 2;
                    },
                }
            }
        } else if c < 32 {
            return None;
        } else {
            let ghost out_pre = out@;
            out.push(c);
            proof {
                let sub = sp_str(v@.skip(i as int + 1));
                if sub is Some {
                    assert(out_pre + (seq![c] + sub->Some_0.0) =~= out@ + sub->Some_0.0);
                }
            }
            i = i + 1;
        }
    }
}

/// Skips one raw member value starting at `pos`.
fn skip_raw(v: &Vec<u8>, pos: usize) -> (r: Option<usize>)
    requires
        pos <= v.len(),
    ensures
        match r {
            Some(p) => p <= v.len() && sp_raw(v@.skip(pos as int), 0, false, false, false) == Some(
                v@.skip(p as int),
            ),
            None => sp_raw(v@.skip(pos as int), 0, false, false, false) is None,
        },
{
    let mut i: usize = pos;
    let mut depth: usize = 0;
    let mut in_str: bool = false;
    let mut esc: bool = false;
    let mut seen: bool = false;
    loop
        invariant
            pos <= i <= v.len(),
            depth <= i - pos,
            sp_raw(v@.skip(pos as int), 0, false, false, false) == sp_raw(
                v@.skip(i as int),
                depth as nat,
                in_str,
                esc,
                seen,
            ),
        decreases v.len() - i,
    {
        if i >= v.len() {
            return None;
        }
        let c = v[i];
        proof {
            assert(v@.skip(i as int)[0] == c);
            assert(v@.skip(i as int).skip(1) =~= v@.skip(i as int + 1));
        }
        let ghost s_i = v@.skip(i as int);
        let ghost s_n = v@.skip(i as int + 1);
        if in_str {
            if esc {
                proof {
                    assert(sp_raw(s_i, depth as nat, true, true, seen) == sp_raw(
                        s_n,
                        depth as nat,
                        true,
                        false,
                        seen,
                    ));
                }
                esc = false;
            } else if c == 92 {
                proof {
                    assert(sp_raw(s_i, depth as nat, true, false, seen) == sp_raw(
                        s_n,
                        depth as nat,
                        true,
                        true,
                        seen,
                    ));
                }
                esc = true;
            } else if c == 34 {
                proof {
                    assert(sp_raw(s_i, depth as nat, true, false, seen) == sp_raw(
                        s_n,
                        depth as nat,
                        false,
                        false,
                        seen,
                    ));
                }
                in_str = false;
            } else {
                proof {
                    assert(sp_raw(s_i, depth as nat, true, false, seen) == sp_raw(
                        s_n,
                        depth as nat,
                        true,
                        false,
                        seen,
                    ));
                }
            }
            i = i + 1;
        } else if depth == 0 && seen && (c == 44 || c == 125) {
            proof {
                assert(sp_raw(s_i, 0, false, false, true) == Some(s_i));
            }
            return Some(i);
        } else if c == 34 {
            proof {
                assert(sp_raw(s_i, depth as nat, false, esc, seen) == sp_raw(
                    s_n,
                    depth as nat,
                    true,
                    false,
                    true,
                ));
            }
            in_str = true;
            esc = false;
            seen = true;
            i = i + 1;
        } else if c == 123 || c == 91 {
            proof {
                assert(sp_raw(s_i, depth as nat, false, esc, seen) == sp_raw(
                    s_n,
                    depth as nat + 1,
                    false,
                    false,
                    true,
                ));
            }
            depth = depth + 1;
            seen = true;
            i = i + 1;
        } else if c == 125 || c == 93 {
            if depth == 0 {
                proof {
                    assert(sp_raw(s_i, 0, false, esc, seen) is None);
                }
                return None;
            }
            proof {
                assert(sp_raw(s_i, depth as nat, false, esc, seen) == sp_raw(
                    s_n,
                    (depth - 1) as nat,
                    false,
                    false,
                    true,
                ));
            }
            depth = depth - 1;
            seen = true;
            i = i + 1;
        } else {
            proof {
                assert(sp_raw(s_i, depth as nat, false, esc, seen) == sp_raw(
                    s_n,
                    depth as nat,
                    false,
                    false,
                    true,
                ));
            }
            seen = true;
            i = i + 1;
        }
    }
}

/// Parses `true` or `false` at `pos`.
fn parse_bool(v: &Vec<u8>, pos: usize) -> (r: Option<(bool, usize)>)
    requires
        pos <= v.len(),
    ensures
        match r {
            Some(p) => p.1 <= v.len() && sp_bool(v@.skip(pos as int)) == Some(
                (p.0, v@.skip(p.1 as int)),
            ),
            None => sp_bool(v@.skip(pos as int)) is None,
        },
{
    proof {
        let s = v@.skip(pos as int);
        assert(s.len() == v@.len() - pos);
        assert forall|k: int| 0 <= k < s.len() implies s[k] == v@[pos + k] by {}
    }
    if v.len() - pos >= 4 && v[pos] == 116 && v[pos + 1] == 114 && v[pos + 2] == 117 && v[pos + 3]
        == 101 {
        proof {
            assert(v@.skip(pos as int).skip(4) =~= v@.skip(pos as int + 4));
        }
        Some((true, pos + 4))
    } else if v.len() - pos >= 5 && v[pos] == 102 && v[pos + 1] == 97 && v[pos + 2] == 108 && v[pos
        + 3] == 115 && v[pos + 4] == 101 {
        proof {
            assert(v@.skip(pos as int).skip(5) =~= v@.skip(pos as int + 5));
        }
        Some((false, pos + 5))
    } else {
        None
    }
}

/// Whether `k` is the member name `response`.
fn is_response_key(k: &Vec<u8>) -> (r: bool)
    ensures
        r == (k@ == response_key()),
{
    if k.len() != 8 {
        return false;
    }
    let r = k[0] == 114 && k[1] == 101 && k[2] == 115 && k[3] == 112 && k[4] == 111 && k[5] == 110
        && k[6] == 115 && k[7] == 101;
    proof {
        if r {
            assert(k@ =~= response_key());
        }
    }
    r
}

/// Whether `k` is the member name `done`.
fn is_done_key(k: &Vec<u8>) -> (r: bool)
    ensures
        r == (k@ == done_key()),
{
    if k.len() != 4 {
        return false;
    }
    let r = k[0] == 100 && k[1] == 111 && k[2] == 110 && k[3] == 101;
    proof {
        if r {
            assert(k@ =~= done_key());
        }
    }
    r
}

/// Parses frame members at `pos`; mirrors `sp_members`.
fn parse_members(
    v: &Vec<u8>,
    pos: usize,
    resp: Option<Vec<u8>>,
    done: Option<bool>,
    fuel: usize,
) -> (r: Option<BackendFrame>)
    requires
        pos <= v.len(),
    ensures
        match r {
            Some(f) => sp_members(v@.skip(pos as int), ov(resp), done, fuel as nat) == Some(
                (f.fragment@, f.done),
            ),
            None => sp_members(v@.skip(pos as int), ov(resp), done, fuel as nat) is None,
        },
    decreases fuel, 0int,
{
    if fuel == 0 {
        return None;
    }
    if pos >= v.len() {
        return None;
    }
    proof {
        assert(v@.skip(pos as int)[0] == v@[pos as int]);
        assert(v@.skip(pos as int).skip(1) =~= v@.skip(pos as int + 1));
    }
    if v[pos] != 34 {
        return None;
    }
    match parse_str(v, pos + 1) {
        None => None,
        Some((key, p1)) => {
            let p2 = skip_ws(v, p1);
            if p2 >= v.len() {
                return None;
            }
            proof {
                assert(v@.skip(p2 as int)[0] == v@[p2 as int]);
                assert(v@.skip(p2 as int).skip(1) =~= v@.skip(p2 as int + 1));
            }
            if v[p2] != 58 {
                return None;
            }
            let p3 = skip_ws(v, p2 + 1);
            if is_response_key(&key) {
                if resp.is_some() {
                    return None;
                }
                if p3 >= v.len() {
                    return None;
                }
                proof {
                    assert(v@.skip(p3 as int)[0] == v@[p3 as int]);
                    assert(v@.skip(p3 as int).skip(1) =~= v@.skip(p3 as int + 1));
                }
                if v[p3] != 34 {
                    return None;
                }
                match parse_str(v, p3 + 1) {
                    None => None,
                    Some((val, p4)) => parse_after_value(v, p4, Some(val), done, fuel - 1),
                }
            } else if is_done_key(&key) {
                if done.is_some() {
                    return None;
                }
                match parse_bool(v, p3) {
                    None => None,
                    Some((b, p4)) => parse_after_value(v, p4, resp, Some(b), fuel - 1),
                }
            } else {
                match skip_raw(v, p3) {
                    None => None,
                    Some(p4) => parse_after_value(v, p4, resp, done, fuel - 1),
                }
            }
        },
    }
}

/// Parses what follows a member value at `pos`; mirrors `sp_after_value`.
fn parse_after_value(
    v: &Vec<u8>,
    pos: usize,
    resp: Option<Vec<u8>>,
    done: Option<bool>,
    fuel: usize,
) -> (r: Option<BackendFrame>)
    requires
        pos <= v.len(),
    ensures
        match r {
            Some(f) => sp_after_value(v@.skip(pos as int), ov(resp), done, fuel as nat) == Some(
                (f.fragment@, f.done),
            ),
            None => sp_after_value(v@.skip(pos as int), ov(resp), done, fuel as nat) is None,
        },
    decreases fuel, 1int,
{
    let p = skip_ws(v, pos);
    if p >= v.len() {
        return None;
    }
    let c = v[p];
    proof {
        assert(v@.skip(p as int)[0] == c);
        assert(v@.skip(p as int).skip(1) =~= v@.skip(p as int + 1));
    }
    if c == 44 {
        let p2 = skip_ws(v, p + 1);
        parse_members(v, p2, resp, done, fuel)
    } else if c == 125 {
        let p2 = skip_ws(v, p + 1);
        if p2 < v.len() {
            return None;
        }
        match (resp, done) {
            (Some(f), Some(d)) => Some(BackendFrame { fragment: f, done: d }),
            _ => None,
        }
    } else {
        None
    }
}

/// Decodes one reassembled line as a backend frame; yields nothing for an
/// empty line or any line outside the frame grammar.
pub fn decode_frame(line: &Vec<u8>) -> (r: Option<BackendFrame>)
    ensures
        match r {
            Some(f) => decode_spec(line@) == Some((f.fragment@, f.done)),
            None => decode_spec(line@) is None,
        },
{
    proof {
        assert(line@.skip(0) =~= line@);
    }
    let s = skip_ws(line, 0);
    if s >= line.len() {
        return None;
    }
    proof {
        assert(line@.skip(s as int)[0] == line@[s as int]);
        assert(line@.skip(s as int).skip(1) =~= line@.skip(s as int + 1));
    }
    if line[s] != 123 {
        return None;
    }
    let s1 = skip_ws(line, s + 1);
    parse_members(line, s1, None, None, line.len())
}

} // verus!
