//! Outbound byte framing: JSON string escaping, the JSON wire form of
//! outbound events, SSE frames, the backend request body, the
//! non-streaming answer extraction, and the health payload. Every function
//! produces exactly the bytes its specification names.

use vstd::prelude::*;

use crate::frame::decode_frame;
use crate::frame::decode_spec;
use crate::reframe::EvModel;
use crate::reframe::EventKind;
use crate::reframe::OutEvent;

verus! {

/// The bytes `{"type":"`.
pub open spec fn lit_type_prefix() -> Seq<u8> {
    seq![123u8, 34u8, 116u8, 121u8, 112u8, 101u8, 34u8, 58u8, 34u8]
}

/// The bytes `","content":"`.
pub open spec fn lit_content_mid() -> Seq<u8> {
    seq![34u8, 44u8, 34u8, 99u8, 111u8, 110u8, 116u8, 101u8, 110u8, 116u8, 34u8, 58u8, 34u8]
}

/// The bytes `","done":`.
pub open spec fn lit_done_mid() -> Seq<u8> {
    seq![34u8, 44u8, 34u8, 100u8, 111u8, 110u8, 101u8, 34u8, 58u8]
}

/// The bytes `true`.
pub open spec fn lit_true() -> Seq<u8> {
    seq![116u8, 114u8, 117u8, 101u8]
}

/// The bytes `false`.
pub open spec fn lit_false() -> Seq<u8> {
    seq![102u8, 97u8, 108u8, 115u8, 101u8]
}

/// The bytes `fragment`.
pub open spec fn lit_fragment() -> Seq<u8> {
    seq![102u8, 114u8, 97u8, 103u8, 109u8, 101u8, 110u8, 116u8]
}

/// The bytes `complete`.
pub open spec fn lit_complete() -> Seq<u8> {
    seq![99u8, 111u8, 109u8, 112u8, 108u8, 101u8, 116u8, 101u8]
}

/// The bytes `error`.
pub open spec fn lit_error() -> Seq<u8> {
    seq![101u8, 114u8, 114u8, 111u8, 114u8]
}

/// The bytes `data: `.
pub open spec fn lit_data_prefix() -> Seq<u8> {
    seq![100u8, 97u8, 116u8, 97u8, 58u8, 32u8]
}

/// The bytes `{"model":"`.
pub open spec fn lit_model_prefix() -> Seq<u8> {
    seq![123u8, 34u8, 109u8, 111u8, 100u8, 101u8, 108u8, 34u8, 58u8, 34u8]
}

/// The bytes `","prompt":"`.
pub open spec fn lit_prompt_mid() -> Seq<u8> {
    seq![34u8, 44u8, 34u8, 112u8, 114u8, 111u8, 109u8, 112u8, 116u8, 34u8, 58u8, 34u8]
}

/// The bytes `","stream":`.
pub open spec fn lit_stream_mid() -> Seq<u8> {
    seq![34u8, 44u8, 34u8, 115u8, 116u8, 114u8, 101u8, 97u8, 109u8, 34u8, 58u8]
}

/// The bytes `{"status":"ok","service":"ollama-rust","time":"`.
pub open spec fn lit_health_prefix() -> Seq<u8> {
    seq![
        123u8,
        34u8,
        115u8,
        116u8,
        97u8,
        116u8,
        117u8,
        115u8,
        34u8,
        58u8,
        34u8,
        111u8,
        107u8,
        34u8,
        44u8,
        34u8,
        115u8,
        101u8,
        114u8,
        118u8,
        105u8,
        99u8,
        101u8,
        34u8,
        58u8,
        34u8,
        111u8,
        108u8,
        108u8,
        97u8,
        109u8,
        97u8,
        45u8,
        114u8,
        117u8,
        115u8,
        116u8,
        34u8,
        44u8,
        34u8,
        116u8,
        105u8,
        109u8,
        101u8,
        34u8,
        58u8,
        34u8,
    ]
}

/// The bytes `Ollama API error: `.
pub open spec fn lit_backend_error_prefix() -> Seq<u8> {
    seq![
        79u8,
        108u8,
        108u8,
        97u8,
        109u8,
        97u8,
        32u8,
        65u8,
        80u8,
        73u8,
        32u8,
        101u8,
        114u8,
        114u8,
        111u8,
        114u8,
        58u8,
        32u8,
    ]
}

/// The decimal digits of `n`, most significant first.
pub open spec fn dec_spec(n: nat) -> Seq<u8>
    decreases n,
{
    if n < 10 {
        seq![(48 + n) as u8]
    } else {
        dec_spec(n / 10) + seq![(48 + n % 10) as u8]
    }
}

/// Whether a backend status code speaks success.
pub open spec fn status_ok_spec(s: u16) -> bool {
    200 <= s < 300
}

/// Whether a backend status code speaks success; agrees with
/// `status_ok_spec`.
pub fn backend_status_ok(s: u16) -> (r: bool)
    ensures
        r == status_ok_spec(s),
{
    200 <= s && s < 300
}

/// Appends the decimal digits of `n`.
fn push_dec(out: &mut Vec<u8>, n: u16)
    ensures
        final(out)@ == old(out)@ + dec_spec(n as nat),
    decreases n,
{
    if n < 10 {
        out.push(48 + (n as u8));
        proof {
            assert(out@ =~= old(out)@ + dec_spec(n as nat));
        }
    } else {
        push_dec(out, n / 10);
        out.push(48 + ((n % 10) as u8));
        proof {
            assert(out@ =~= old(out)@ + dec_spec(n as nat));
        }
    }
}

/// The failure text for a backend status code:
/// `Ollama API error: <digits>`.
pub fn backend_error_text(status: u16) -> (r: Vec<u8>)
    ensures
        r@ == lit_backend_error_prefix() + dec_spec(status as nat),
{
    let mut out: Vec<u8> = Vec::new();
    out.push(79);
    out.push(108);
    out.push(108);
    out.push(97);
    out.push(109);
    out.push(97);
    out.push(32);
    out.push(65);
    out.push(80);
    out.push(73);
    out.push(32);
    out.push(101);
    out.push(114);
    out.push(114);
    out.push(111);
    out.push(114);
    out.push(58);
    out.push(32);
    proof {
        assert(out@ =~= lit_backend_error_prefix());
    }
    push_dec(&mut out, status);
    out
}

/// The hex digit (lower case) for `n < 16`.
pub open spec fn hex_digit(n: u8) -> u8 {
    if n < 10 {
        (48 + n) as u8
    } else {
        (87 + n) as u8
    }
}

/// The escaped wire form of one byte inside a JSON string: quote and
/// backslash get a two-character escape, the named control characters get
/// theirs, the remaining control bytes get `\u00..`, and every other byte
/// stands as itself.
pub open spec fn esc_out(b: u8) -> Seq<u8> {
    if b == 34 {
        seq![92u8, 34u8]
    } else if b == 92 {
        seq![92u8, 92u8]
    } else if b == 8 {
        seq![92u8, 98u8]
    } else if b == 9 {
        seq![92u8, 116u8]
    } else if b == 10 {
        seq![92u8, 110u8]
    } else if b == 12 {
        seq![92u8, 102u8]
    } else if b == 13 {
        seq![92u8, 114u8]
    } else if b < 32 {
        seq![92u8, 117u8, 48u8, 48u8, hex_digit(b / 16), hex_digit(b % 16)]
    } else {
        seq![b]
    }
}

/// The JSON string escaping of `s`, byte by byte.
pub open spec fn json_escape_spec(s: Seq<u8>) -> Seq<u8>
    decreases s.len(),
{
    if s.len() == 0 {
        seq![]
    } else {
        esc_out(s[0]) + json_escape_spec(s.skip(1))
    }
}

/// The name of an event kind on the wire.
pub open spec fn kind_name(k: EventKind) -> Seq<u8> {
    match k {
        EventKind::Fragment => lit_fragment(),
        EventKind::Complete => lit_complete(),
        EventKind::Error => lit_error(),
    }
}

/// The wire form of a boolean.
pub open spec fn bool_lit(b: bool) -> Seq<u8> {
    if b {
        lit_true()
    } else {
        lit_false()
    }
}

/// The JSON wire form of one outbound event:
/// `{"type":"<kind>","content":"<escaped>","done":<bool>}`.
pub open spec fn event_json_spec(e: EvModel) -> Seq<u8> {
    lit_type_prefix() + kind_name(e.kind) + lit_content_mid() + json_escape_spec(e.content)
        + lit_done_mid() + bool_lit(e.done) + seq![125u8]
}

/// One SSE wire frame around an event's JSON: `data: <json>` and a blank
/// line.
pub open spec fn sse_frame_spec(json: Seq<u8>) -> Seq<u8> {
    lit_data_prefix() + json + seq![10u8, 10u8]
}

/// The backend request body:
/// `{"model":"<escaped>","prompt":"<escaped>","stream":<bool>}`.
pub open spec fn backend_request_spec(model: Seq<u8>, prompt: Seq<u8>, stream: bool) -> Seq<u8> {
    lit_model_prefix() + json_escape_spec(model) + lit_prompt_mid() + json_escape_spec(prompt)
        + lit_stream_mid() + bool_lit(stream) + seq![125u8]
}

/// The health payload:
/// `{"status":"ok","service":"ollama-rust","time":"<escaped>"}`.
pub open spec fn health_json_spec(time: Seq<u8>) -> Seq<u8> {
    lit_health_prefix() + json_escape_spec(time) + seq![34u8, 125u8]
}

/// The non-streaming answer for a backend body: the frame's fragment when
/// the body parses as one frame, else the body itself, verbatim.
pub open spec fn answer_of_body_spec(body: Seq<u8>) -> Seq<u8> {
    match decode_spec(body) {
        Some(fr) => fr.0,
        None => body,
    }
}

/// Appends the escaped wire form of `b`.
fn push_esc(out: &mut Vec<u8>, b: u8)
    ensures
        final(out)@ == old(out)@ + esc_out(b),
{
    if b == 34 {
        out.push(92);
        out.push(34);
    } else if b == 92 {
        out.push(92);
        out.push(92);
    } else if b == 8 {
        out.push(92);
        out.push(98);
    } else if b == 9 {
        out.push(92);
        out.push(116);
    } else if b == 10 {
        out.push(92);
        out.push(110);
    } else if b == 12 {
        out.push(92);
        out.push(102);
    } else if b == 13 {
        out.push(92);
        out.push(114);
    } else if b < 32 {
        out.push(92);
        out.push(117);
        out.push(48);
        out.push(48);
        let hi = b / 16;
        let lo = b % 16;
        if hi < 10 {
            out.push(48 + hi);
        } else {
            out.push(87 + hi);
        }
        if lo < 10 {
            out.push(48 + lo);
        } else {
            out.push(87 + lo);
        }
    } else {
        out.push(b);
    }
    proof {
        assert(out@ =~= old(out)@ + esc_out(b));
    }
}

/// Appends the JSON string escaping of `s`.
fn push_escaped(out: &mut Vec<u8>, s: &Vec<u8>)
    ensures
        final(out)@ == old(out)@ + json_escape_spec(s@),
{
    let mut i: usize = 0;
    proof {
        assert(s@.skip(0) =~= s@);
        assert(out@ + json_escape_spec(s@) =~= old(out)@ + json_escape_spec(s@));
    }
    while i < s.len()
        invariant
            i <= s.len(),
            out@ + json_escape_spec(s@.skip(i as int)) == old(out)@ + json_escape_spec(s@),
        decreases s.len() - i,
    {
        proof {
            assert(s@.skip(i as int)[0] == s@[i as int]);
            assert(s@.skip(i as int).skip(1) =~= s@.skip(i as int + 1));
        }
        let ghost out_pre = out@;
        push_esc(out, s[i]);
        proof {
            assert((out_pre + esc_out(s@[i as int])) + json_escape_spec(s@.skip(i as int + 1))
                =~= out_pre + (esc_out(s@[i as int]) + json_escape_spec(s@.skip(i as int + 1))));
        }
        i = i + 1;
    }
    proof {
        assert(s@.skip(s@.len() as int) =~= Seq::<u8>::empty());
        assert(out@ + json_escape_spec(Seq::<u8>::empty()) =~= out@);
    }
}

/// Appends the wire name of an event kind.
fn push_kind(out: &mut Vec<u8>, k: EventKind)
    ensures
        final(out)@ == old(out)@ + kind_name(k),
{
    match k {
        EventKind::Fragment => {
            out.push(102);
            out.push(114);
            out.push(97);
            out.push(103);
            out.push(109);
            out.push(101);
            out.push(110);
            out.push(116);
        },
        EventKind::Complete => {
            out.push(99);
            out.push(111);
            out.push(109);
            out.push(112);
            out.push(108);
            out.push(101);
            out.push(116);
            out.push(101);
        },
        EventKind::Error => {
            out.push(101);
            out.push(114);
            out.push(114);
            out.push(111);
            out.push(114);
        },
    }
    proof {
        assert(out@ =~= old(out)@ + kind_name(k));
    }
}

/// Appends the wire form of a boolean.
fn push_bool(out: &mut Vec<u8>, b: bool)
    ensures
        final(out)@ == old(out)@ + bool_lit(b),
{
    if b {
        out.push(116);
        out.push(114);
        out.push(117);
        out.push(101);
    } else {
        out.push(102);
        out.push(97);
        out.push(108);
        out.push(115);
        out.push(101);
    }
    proof {
        assert(out@ =~= old(out)@ + bool_lit(b));
    }
}

/// The JSON wire form of one outbound event.
pub fn event_json(e: &OutEvent) -> (r: Vec<u8>)
    ensures
        r@ == event_json_spec(e.model()),
{
    let mut out: Vec<u8> = Vec::new();
    out.push(123);
    out.push(34);
    out.push(116);
    out.push(121);
    out.push(112);
    out.push(101);
    out.push(34);
    out.push(58);
    out.push(34);
    proof {
        assert(out@ =~= lit_type_prefix());
    }
    push_kind(&mut out, e.kind);
    let ghost s1 = out@;
    out.push(34);
    out.push(44);
    out.push(34);
    out.push(99);
    out.push(111);
    out.push(110);
    out.push(116);
    out.push(101);
    out.push(110);
    out.push(116);
    out.push(34);
    out.push(58);
    out.push(34);
    proof {
        assert(out@ =~= s1 + lit_content_mid());
    }
    push_escaped(&mut out, &e.content);
    let ghost s2 = out@;
    out.push(34);
    out.push(44);
    out.push(34);
    out.push(100);
    out.push(111);
    out.push(110);
    out.push(101);
    out.push(34);
    out.push(58);
    proof {
        assert(out@ =~= s2 + lit_done_mid());
    }
    push_bool(&mut out, e.done);
    out.push(125);
    proof {
        assert(out@ =~= event_json_spec(e.model()));
    }
    out
}

/// One SSE wire frame around an event's JSON.
pub fn sse_frame(json: &Vec<u8>) -> (r: Vec<u8>)
    ensures
        r@ == sse_frame_spec(json@),
{
    let mut out: Vec<u8> = Vec::new();
    out.push(100);
    out.push(97);
    out.push(116);
    out.push(97);
    out.push(58);
    out.push(32);
    proof {
        assert(out@ =~= lit_data_prefix());
    }
    let mut i: usize = 0;
    while i < json.len()
        invariant
            i <= json.len(),
            out@ == lit_data_prefix() + json@.take(i as int),
        decreases json.len() - i,
    {
        out.push(json[i]);
        proof {
            assert(json@.take(i as int).push(json@[i as int]) =~= json@.take(i as int + 1));
            assert(out@ =~= lit_data_prefix() + json@.take(i as int + 1));
        }
        i = i + 1;
    }
    proof {
        assert(json@.take(json@.len() as int) =~= json@);
    }
    out.push(10);
    out.push(10);
    proof {
        assert(out@ =~= sse_frame_spec(json@));
    }
    out
}

/// The composed prompt: the configured preamble followed by the question.
pub fn compose_prompt(preamble: &Vec<u8>, question: &Vec<u8>) -> (r: Vec<u8>)
    ensures
        r@ == preamble@ + question@,
{
    let mut out: Vec<u8> = Vec::new();
    let mut i: usize = 0;
    while i < preamble.len()
        invariant
            i <= preamble.len(),
            out@ == preamble@.take(i as int),
        decreases preamble.len() - i,
    {
        out.push(preamble[i]);
        proof {
            assert(preamble@.take(i as int).push(preamble@[i as int]) =~= preamble@.take(
                i as int + 1,
            ));
        }
        i = i + 1;
    }
    proof {
        assert(preamble@.take(preamble@.len() as int) =~= preamble@);
    }
    let mut j: usize = 0;
    while j < question.len()
        invariant
            j <= question.len(),
            out@ == preamble@ + question@.take(j as int),
        decreases question.len() - j,
    {
        out.push(question[j]);
        proof {
            assert(question@.take(j as int).push(question@[j as int]) =~= question@.take(
                j as int + 1,
            ));
            assert(out@ =~= preamble@ + question@.take(j as int + 1));
        }
        j = j + 1;
    }
    proof {
        assert(question@.take(question@.len() as int) =~= question@);
        assert(out@ =~= preamble@ + question@);
    }
    out
}

/// The backend request body for a model and composed prompt.
pub fn backend_request_json(model: &Vec<u8>, prompt: &Vec<u8>, stream: bool) -> (r: Vec<u8>)
    ensures
        r@ == backend_request_spec(model@, prompt@, stream),
{
    let mut out: Vec<u8> = Vec::new();
    out.push(123);
    out.push(34);
    out.push(109);
    out.push(111);
    out.push(100);
    out.push(101);
    out.push(108);
    out.push(34);
    out.push(58);
    out.push(34);
    proof {
        assert(out@ =~= lit_model_prefix());
    }
    push_escaped(&mut out, model);
    let ghost s1 = out@;
    out.push(34);
    out.push(44);
    out.push(34);
    out.push(112);
    out.push(114);
    out.push(111);
    out.push(109);
    out.push(112);
    out.push(116);
    out.push(34);
    out.push(58);
    out.push(34);
    proof {
        assert(out@ =~= s1 + lit_prompt_mid());
    }
    push_escaped(&mut out, prompt);
    let ghost s2 = out@;
    out.push(34);
    out.push(44);
    out.push(34);
    out.push(115);
    out.push(116);
    out.push(114);
    out.push(101);
    out.push(97);
    out.push(109);
    out.push(34);
    out.push(58);
    proof {
        assert(out@ =~= s2 + lit_stream_mid());
    }
    push_bool(&mut out, stream);
    out.push(125);
    proof {
        assert(out@ =~= backend_request_spec(model@, prompt@, stream));
    }
    out
}

/// The health payload carrying the given timestamp text.
#[verifier::rlimit(50)]
pub fn health_json(time: &Vec<u8>) -> (r: Vec<u8>)
    ensures
        r@ == health_json_spec(time@),
{
    let mut out: Vec<u8> = Vec::new();
    out.push(123);
    out.push(34);
    out.push(115);
    out.push(116);
    out.push(97);
    out.push(116);
    out.push(117);
    out.push(115);
    out.push(34);
    out.push(58);
    out.push(34);
    out.push(111);
    out.push(107);
    out.push(34);
    out.push(44);
    out.push(34);
    out.push(115);
    out.push(101);
    out.push(114);
    out.push(118);
    out.push(105);
    out.push(99);
    out.push(101);
    out.push(34);
    out.push(58);
    out.push(34);
    out.push(111);
    out.push(108);
    out.push(108);
    out.push(97);
    out.push(109);
    out.push(97);
    out.push(45);
    out.push(114);
    out.push(117);
    out.push(115);
    out.push(116);
    out.push(34);
    out.push(44);
    out.push(34);
    out.push(116);
    out.push(105);
    out.push(109);
    out.push(101);
    out.push(34);
    out.push(58);
    out.push(34);
    proof {
        assert(out@ =~= lit_health_prefix());
    }
    push_escaped(&mut out, time);
    out.push(34);
    out.push(125);
    proof {
        assert(out@ =~= health_json_spec(time@));
    }
    out
}

/// The non-streaming answer for a backend body.
pub fn answer_of_body(body: Vec<u8>) -> (r: Vec<u8>)
    ensures
        r@ == answer_of_body_spec(body@),
{
    match decode_frame(&body) {
        Some(f) => f.fragment,
        None => body,
    }
}

} // verus!
