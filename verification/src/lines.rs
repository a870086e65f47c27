//! Line reassembly: a stateful buffer that accepts arbitrary byte chunks and
//! yields every complete newline-terminated line, trimmed of surrounding
//! whitespace (the ASCII whitespace bytes and the UTF-8 encodings of the
//! Unicode whitespace characters), in arrival order. The trailing partial
//! line is retained across calls and never emitted.

use vstd::prelude::*;

verus! {

/// ASCII whitespace, as trimmed from the edges of each reassembled line:
/// horizontal tab through carriage return, and space.
pub open spec fn is_ws(b: u8) -> bool {
    b == 9 || b == 10 || b == 11 || b == 12 || b == 13 || b == 32
}

/// The two-byte UTF-8 whitespace characters: U+0085 and U+00A0.
pub open spec fn is_ws2(a: u8, b: u8) -> bool {
    a == 0xC2 && (b == 0x85 || b == 0xA0)
}

/// The three-byte UTF-8 whitespace characters: U+1680, U+2000 through
/// U+200A, U+2028, U+2029, U+202F, U+205F and U+3000.
pub open spec fn is_ws3(a: u8, b: u8, c: u8) -> bool {
    (a == 0xE1 && b == 0x9A && c == 0x80) || (a == 0xE2 && b == 0x80 && (0x80 <= c <= 0x8A || c
        == 0xA8 || c == 0xA9 || c == 0xAF)) || (a == 0xE2 && b == 0x81 && c == 0x9F) || (a == 0xE3
        && b == 0x80 && c == 0x80)
}

/// The length of the whitespace character at the head of `l`, zero when
/// the head is not whitespace. Multi-byte matches come first; no UTF-8
/// whitespace encoding is a prefix of another's.
pub open spec fn ws_head(l: Seq<u8>) -> nat {
    if l.len() >= 3 && is_ws3(l[0], l[1], l[2]) {
        3
    } else if l.len() >= 2 && is_ws2(l[0], l[1]) {
        2
    } else if l.len() >= 1 && is_ws(l[0]) {
        1
    } else {
        0
    }
}

/// The length of the whitespace character at the end of `l`, zero when the
/// end is not whitespace.
pub open spec fn ws_tail(l: Seq<u8>) -> nat {
    if l.len() >= 3 && is_ws3(l[l.len() - 3], l[l.len() - 2], l[l.len() - 1]) {
        3
    } else if l.len() >= 2 && is_ws2(l[l.len() - 2], l[l.len() - 1]) {
        2
    } else if l.len() >= 1 && is_ws(l[l.len() - 1]) {
        1
    } else {
        0
    }
}

/// The line bytes with leading whitespace characters removed.
pub open spec fn trim_start_spec(l: Seq<u8>) -> Seq<u8>
    decreases l.len(),
{
    if ws_head(l) == 0 {
        l
    } else {
        trim_start_spec(l.skip(ws_head(l) as int))
    }
}

/// The line bytes with trailing whitespace characters removed.
pub open spec fn trim_end_spec(l: Seq<u8>) -> Seq<u8>
    decreases l.len(),
{
    if ws_tail(l) == 0 {
        l
    } else {
        trim_end_spec(l.take(l.len() - ws_tail(l)))
    }
}

/// The line bytes with surrounding whitespace removed.
pub open spec fn trim_spec(l: Seq<u8>) -> Seq<u8> {
    trim_end_spec(trim_start_spec(l))
}

/// The trimmed complete lines obtained by scanning `s` with `cur` already
/// buffered: every newline closes the line accumulated so far; bytes after
/// the last newline are not emitted.
pub open spec fn tlines_from(s: Seq<u8>, cur: Seq<u8>) -> Seq<Seq<u8>>
    decreases s.len(),
{
    if s.len() == 0 {
        seq![]
    } else if s[0] == 10 {
        seq![trim_spec(cur)] + tlines_from(s.skip(1), seq![])
    } else {
        tlines_from(s.skip(1), cur.push(s[0]))
    }
}

/// The bytes after the last newline once `s` has been scanned with `cur`
/// already buffered: the partial line carried to the next feed.
pub open spec fn rest_from(s: Seq<u8>, cur: Seq<u8>) -> Seq<u8>
    decreases s.len(),
{
    if s.len() == 0 {
        cur
    } else if s[0] == 10 {
        rest_from(s.skip(1), seq![])
    } else {
        rest_from(s.skip(1), cur.push(s[0]))
    }
}

/// The concatenation of a sequence of byte chunks.
pub open spec fn concat_chunks(cs: Seq<Seq<u8>>) -> Seq<u8>
    decreases cs.len(),
{
    if cs.len() == 0 {
        seq![]
    } else {
        cs[0] + concat_chunks(cs.skip(1))
    }
}

/// The lines yielded by feeding the chunks of `cs` in order into a
/// reassembler whose buffer holds `cur`: each feed yields the lines of its
/// chunk and leaves the partial tail buffered for the next.
pub open spec fn fed_lines(cs: Seq<Seq<u8>>, cur: Seq<u8>) -> Seq<Seq<u8>>
    decreases cs.len(),
{
    if cs.len() == 0 {
        seq![]
    } else {
        tlines_from(cs[0], cur) + fed_lines(cs.skip(1), rest_from(cs[0], cur))
    }
}

/// Scanning `a + b` is the same as scanning `a`, then scanning `b` with the
/// partial tail of `a` carried over.
pub proof fn lemma_tlines_append(a: Seq<u8>, b: Seq<u8>, cur: Seq<u8>)
    ensures
        tlines_from(a + b, cur) == tlines_from(a, cur) + tlines_from(b, rest_from(a, cur)),
        rest_from(a + b, cur) == rest_from(b, rest_from(a, cur)),
    decreases a.len(),
{
    if a.len() == 0 {
        assert(a + b =~= b);
        assert(tlines_from(a, cur) + tlines_from(b, cur) =~~= tlines_from(b, cur));
    } else {
        assert((a + b)[0] == a[0]);
        assert((a + b).skip(1) =~= a.skip(1) + b);
        if a[0] == 10 {
            lemma_tlines_append(a.skip(1), b, Seq::<u8>::empty());
            assert(tlines_from(a + b, cur) =~~= tlines_from(a, cur) + tlines_from(
                b,
                rest_from(a, cur),
            ));
        } else {
            lemma_tlines_append(a.skip(1), b, cur.push(a[0]));
            assert(tlines_from(a + b, cur) =~~= tlines_from(a, cur) + tlines_from(
                b,
                rest_from(a, cur),
            ));
        }
    }
}

/// Law: for any split of a byte sequence into chunks, feeding the chunks in
/// order yields the same trimmed complete lines, in the same order, as
/// scanning the concatenated bytes directly. No line spanning two chunks is
/// dropped, and the trailing unterminated fragment is never emitted.
pub proof fn lemma_line_reassembly(cs: Seq<Seq<u8>>, cur: Seq<u8>)
    ensures
        fed_lines(cs, cur) == tlines_from(concat_chunks(cs), cur),
    decreases cs.len(),
{
    if cs.len() == 0 {
        assert(fed_lines(cs, cur) =~~= tlines_from(concat_chunks(cs), cur));
    } else {
        lemma_line_reassembly(cs.skip(1), rest_from(cs[0], cur));
        lemma_tlines_append(cs[0], concat_chunks(cs.skip(1)), cur);
        assert(fed_lines(cs, cur) =~~= tlines_from(concat_chunks(cs), cur));
    }
}

/// Law: the carried partial line never holds a newline; every newline seen
/// so far has already closed a line.
pub proof fn lemma_rest_has_no_newline(s: Seq<u8>, cur: Seq<u8>)
    requires
        forall|i: int| 0 <= i < cur.len() ==> #[trigger] cur[i] != 10,
    ensures
        forall|i: int| 0 <= i < rest_from(s, cur).len() ==> #[trigger] rest_from(s, cur)[i] != 10,
    decreases s.len(),
{
    if s.len() == 0 {
    } else if s[0] == 10 {
        lemma_rest_has_no_newline(s.skip(1), Seq::<u8>::empty());
        assert(rest_from(s, cur) == rest_from(s.skip(1), Seq::<u8>::empty()));
    } else {
        let cur2 = cur.push(s[0]);
        assert forall|i: int| 0 <= i < cur2.len() implies #[trigger] cur2[i] != 10 by {
            if i < cur.len() {
                assert(cur2[i] == cur[i]);
            } else {
                assert(cur2[i] == s[0]);
            }
        }
        lemma_rest_has_no_newline(s.skip(1), cur2);
        assert(rest_from(s, cur) == rest_from(s.skip(1), cur2));
    }
}

/// The length of the whitespace character at position `start` of
/// `l[start..end]`; agrees with `ws_head` on that subrange.
fn ws_head_len(l: &Vec<u8>, start: usize, end: usize) -> (k: usize)
    requires
        start <= end <= l.len(),
    ensures
        k == ws_head(l@.subrange(start as int, end as int)),
        k <= end - start,
{
    proof {
        let s = l@.subrange(start as int, end as int);
        assert(s.len() == end - start);
        assert forall|j: int| 0 <= j < s.len() implies s[j] == l@[start + j] by {}
    }
    let n = end - start;
    if n >= 3 && is_ws3_bytes(l[start], l[start + 1], l[start + 2]) {
        3
    } else if n >= 2 && is_ws2_bytes(l[start], l[start + 1]) {
        2
    } else if n >= 1 && is_ws_byte(l[start]) {
        1
    } else {
        0
    }
}

/// The length of the whitespace character ending at position `end` of
/// `l[start..end]`; agrees with `ws_tail` on that subrange.
fn ws_tail_len(l: &Vec<u8>, start: usize, end: usize) -> (k: usize)
    requires
        start <= end <= l.len(),
    ensures
        k == ws_tail(l@.subrange(start as int, end as int)),
        k <= end - start,
{
    proof {
        let s = l@.subrange(start as int, end as int);
        assert(s.len() == end - start);
        assert forall|j: int| 0 <= j < s.len() implies s[j] == l@[start + j] by {}
    }
    let n = end - start;
    if n >= 3 && is_ws3_bytes(l[end - 3], l[end - 2], l[end - 1]) {
        3
    } else if n >= 2 && is_ws2_bytes(l[end - 2], l[end - 1]) {
        2
    } else if n >= 1 && is_ws_byte(l[end - 1]) {
        1
    } else {
        0
    }
}

/// Returns the trimmed copy of `l`.
pub fn trim_bytes(l: &Vec<u8>) -> (r: Vec<u8>)
    ensures
        r@ == trim_spec(l@),
{
    let mut start: usize = 0;
    proof {
        assert(l@.subrange(0, l@.len() as int) =~= l@);
    }
    loop
        invariant
            start <= l.len(),
            trim_start_spec(l@) == trim_start_spec(l@.subrange(start as int, l@.len() as int)),
        ensures
            start <= l.len(),
            trim_start_spec(l@) == l@.subrange(start as int, l@.len() as int),
        decreases l.len() - start,
    {
        let k = ws_head_len(l, start, l.len());
        if k == 0 {
            proof {
                assert(trim_start_spec(l@.subrange(start as int, l@.len() as int)) == l@.subrange(
                    start as int,
                    l@.len() as int,
                ));
            }
            break;
        }
        proof {
            let s = l@.subrange(start as int, l@.len() as int);
            assert(s.skip(k as int) =~= l@.subrange(start as int + k, l@.len() as int));
        }
        start = start + k;
    }
    let mut end: usize = l.len();
    loop
        invariant
            start <= end <= l.len(),
            trim_start_spec(l@) == l@.subrange(start as int, l@.len() as int),
            trim_end_spec(l@.subrange(start as int, l@.len() as int)) == trim_end_spec(
                l@.subrange(start as int, end as int),
            ),
        ensures
            start <= end <= l.len(),
            trim_end_spec(l@.subrange(start as int, l@.len() as int)) == l@.subrange(
                start as int,
                end as int,
            ),
        decreases end,
    {
        let k = ws_tail_len(l, start, end);
        if k == 0 {
            proof {
                assert(trim_end_spec(l@.subrange(start as int, end as int)) == l@.subrange(
                    start as int,
                    end as int,
                ));
            }
            break;
        }
        proof {
            let s = l@.subrange(start as int, end as int);
            assert(s.take(s.len() - k) =~= l@.subrange(start as int, end as int - k));
        }
        end = end - k;
    }
    let mut r: Vec<u8> = Vec::new();
    let mut i: usize = start;
    while i < end
        invariant
            start <= i <= end <= l.len(),
            r@ =~= l@.subrange(start as int, i as int),
        decreases end - i,
    {
        r.push(l[i]);
        i = i + 1;
    }
    proof {
        assert(r@ =~= l@.subrange(start as int, end as int));
    }
    r
}

/// Whether `b` is ASCII whitespace; agrees with `is_ws`.
pub fn is_ws_byte(b: u8) -> (r: bool)
    ensures
        r == is_ws(b),
{
    b == 9 || b == 10 || b == 11 || b == 12 || b == 13 || b == 32
}

/// Whether the two bytes encode a two-byte whitespace character; agrees
/// with `is_ws2`.
fn is_ws2_bytes(a: u8, b: u8) -> (r: bool)
    ensures
        r == is_ws2(a, b),
{
    a == 0xC2 && (b == 0x85 || b == 0xA0)
}

/// Whether the three bytes encode a three-byte whitespace character;
/// agrees with `is_ws3`.
fn is_ws3_bytes(a: u8, b: u8, c: u8) -> (r: bool)
    ensures
        r == is_ws3(a, b, c),
{
    (a == 0xE1 && b == 0x9A && c == 0x80) || (a == 0xE2 && b == 0x80 && ((0x80 <= c && c <= 0x8A)
        || c == 0xA8 || c == 0xA9 || c == 0xAF)) || (a == 0xE2 && b == 0x81 && c == 0x9F) || (a
        == 0xE3 && b == 0x80 && c == 0x80)
}

/// The reassembly buffer: holds exactly the bytes seen so far that follow
/// the last newline; everything up to that newline has already been yielded
/// as complete lines, in order.
pub struct LineReassembler {
    /// The trailing partial line; never contains a newline.
    pub buf: Vec<u8>,
}

impl LineReassembler {
    /// A fresh reassembler with an empty buffer.
    pub fn new() -> (r: LineReassembler)
        ensures
            r.buf@ == Seq::<u8>::empty(),
    {
        LineReassembler { buf: Vec::new() }
    }

    /// Appends `chunk` and yields every line completed by it, trimmed, in
    /// order; the bytes after the last newline stay buffered.
    pub fn feed(&mut self, chunk: &Vec<u8>) -> (lines: Vec<Vec<u8>>)
        ensures
            lines.deep_view() == tlines_from(chunk@, old(self).buf@),
            final(self).buf@ == rest_from(chunk@, old(self).buf@),
    {
        let ghost buf0 = self.buf@;
        let mut lines: Vec<Vec<u8>> = Vec::new();
        let mut i: usize = 0;
        proof {
            assert(chunk@.skip(0) =~= chunk@);
            assert(lines.deep_view() + tlines_from(chunk@, buf0) =~~= tlines_from(chunk@, buf0));
        }
        while i < chunk.len()
            invariant
                i <= chunk.len(),
                lines.deep_view() + tlines_from(chunk@.skip(i as int), self.buf@) == tlines_from(
                    chunk@,
                    buf0,
                ),
                rest_from(chunk@.skip(i as int), self.buf@) == rest_from(chunk@, buf0),
            decreases chunk.len() - i,
        {
            let b = chunk[i];
            proof {
                assert(chunk@.skip(i as int)[0] == b);
                assert(chunk@.skip(i as int).skip(1) =~= chunk@.skip(i as int + 1));
            }
            if b == 10 {
                let ghost buf_pre = self.buf@;
                let t = trim_bytes(&self.buf);
                let ghost lines_pre = lines.deep_view();
                lines.push(t);
                self.buf = Vec::new();
                proof {
                    assert(lines.deep_view() =~~= lines_pre.push(trim_spec(buf_pre)));
                    assert(tlines_from(chunk@.skip(i as int), buf_pre) =~~= seq![
                        trim_spec(buf_pre),
                    ] + tlines_from(chunk@.skip(i as int + 1), Seq::<u8>::empty()));
                    assert(lines.deep_view() + tlines_from(chunk@.skip(i as int + 1), self.buf@)
                        =~~= lines_pre + tlines_from(chunk@.skip(i as int), buf_pre));
                }
            } else {
                self.buf.push(b);
            }
            i = i + 1;
        }
        proof {
            assert(chunk@.skip(chunk@.len() as int) =~= Seq::<u8>::empty());
            assert(lines.deep_view() + tlines_from(Seq::<u8>::empty(), self.buf@)
                =~~= lines.deep_view());
        }
        lines
    }
}

} // verus!
