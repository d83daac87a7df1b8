//! Domain names: the dotted textual form held in memory, and the wire form
//! of length-prefixed segments ended by a zero byte or by a two-byte
//! compression pointer.

use vstd::prelude::*;

use crate::errors::DecodeError;
use crate::errors::EncodeError;

verus! {

/// The byte that separates segments in the textual form.
pub const DOT: u8 = 46;

/// A domain name in its dotted textual form: raw wire bytes of the
/// segments, joined by '.'.
#[derive(Debug, PartialEq, Eq)]
pub struct Label(pub Vec<u8>);

impl View for Label {
    type V = Seq<u8>;

    open spec fn view(&self) -> Seq<u8> {
        self.0@
    }
}

impl Clone for Label {
    /// The copy holds the same textual name.
    fn clone(&self) -> (r: Self)
        ensures
            r@ == self@,
    {
        let mut t: Vec<u8> = Vec::new();
        let mut i: usize = 0;
        while i < self.0.len()
            invariant
                i <= self.0.len(),
                t@ == self.0@.take(i as int),
            decreases self.0.len() - i,
        {
            t.push(self.0[i]);
            assert(t@ =~= self.0@.take(i as int + 1));
            i = i + 1;
        }
        assert(t@ =~= self.0@);
        Label(t)
    }
}

/// The index of the first '.' in `s`, or `s.len()` when there is none:
/// the current segment is `s.take(first_dot(s))`.
pub open spec fn first_dot(s: Seq<u8>) -> int
    decreases s.len(),
{
    if s.len() == 0 {
        0int
    } else if s[0] == DOT {
        0int
    } else {
        1 + first_dot(s.skip(1))
    }
}

/// `first_dot` points at a '.' within bounds, or just past the end, and
/// nothing before it is a '.'.
pub proof fn lemma_first_dot(s: Seq<u8>)
    ensures
        0 <= first_dot(s) <= s.len(),
        first_dot(s) < s.len() ==> s[first_dot(s)] == DOT,
        forall|k: int| 0 <= k < first_dot(s) ==> s[k] != DOT,
    decreases s.len(),
{
    if s.len() == 0 {
    } else if s[0] == DOT {
    } else {
        lemma_first_dot(s.skip(1));
        assert forall|k: int| 0 <= k < first_dot(s) implies s[k] != DOT by {
            if k > 0 {
                assert(s.skip(1)[k - 1] == s[k]);
            }
        }
        if first_dot(s) < s.len() {
            assert(s.skip(1)[first_dot(s) - 1] == s[first_dot(s)]);
        }
    }
}

/// A scan that saw no '.' before `m`, and a '.' (or the end) at `m`,
/// found `first_dot`.
pub proof fn lemma_first_dot_at(s: Seq<u8>, m: int)
    requires
        0 <= m <= s.len(),
        forall|k: int| 0 <= k < m ==> s[k] != DOT,
        m < s.len() ==> s[m] == DOT,
    ensures
        first_dot(s) == m,
    decreases m,
{
    if m == 0 {
    } else {
        assert(s[0] != DOT);
        assert forall|k: int| 0 <= k < m - 1 implies s.skip(1)[k] != DOT by {
            assert(s.skip(1)[k] == s[k + 1]);
        }
        if m - 1 < s.skip(1).len() {
            assert(s.skip(1)[m - 1] == s[m]);
        }
        lemma_first_dot_at(s.skip(1), m - 1);
    }
}

/// A textual name that the wire form can carry without compression:
/// every dot-separated segment is 1 to 63 bytes long.
pub open spec fn valid_name(s: Seq<u8>) -> bool
    decreases s.len(),
{
    let d = first_dot(s);
    if 1 <= d <= 63 {
        if d == s.len() {
            true
        } else if d < s.len() {
            valid_name(s.skip(d + 1))
        } else {
            false
        }
    } else {
        false
    }
}

/// The uncompressed wire form of a textual name: each segment as a length
/// byte followed by its bytes, ended by a zero byte.
pub open spec fn name_wire(s: Seq<u8>) -> Seq<u8>
    decreases s.len(),
{
    let d = first_dot(s);
    if 0 <= d < s.len() {
        seq![d as u8] + s.take(d) + name_wire(s.skip(d + 1))
    } else {
        seq![s.len() as u8] + s + seq![0u8]
    }
}

/// The wire form of a valid name is its text plus one length byte per
/// segment and the terminator: two bytes more than the text.
pub proof fn lemma_name_wire_len(s: Seq<u8>)
    requires
        valid_name(s),
    ensures
        name_wire(s).len() == s.len() + 2,
    decreases s.len(),
{
    lemma_first_dot(s);
    let d = first_dot(s);
    if d < s.len() {
        lemma_name_wire_len(s.skip(d + 1));
    }
}

/// The absolute offset a compression pointer names: the low six bits of
/// the first byte and all eight of the second.
pub open spec fn ptr_target(b0: u8, b1: u8) -> int
    recommends
        b0 >= 192,
{
    (b0 - 192) * 256 + b1
}

/// What decoding a name at `pos` yields: the dot-joined text of the
/// segments read, following compression pointers. A pointer may only
/// target an offset strictly below `bound`, the offset where the current
/// run of segments began; that makes every chain terminate and rejects
/// every cycle, self-pointers included.
pub open spec fn name_text_at(buf: Seq<u8>, pos: int, bound: int) -> Result<Seq<u8>, DecodeError>
    decreases bound, buf.len() - pos,
{
    if pos < 0 || pos >= buf.len() {
        Err(DecodeError::Truncated)
    } else if buf[pos] == 0 {
        Ok(Seq::empty())
    } else if buf[pos] >= 192 {
        if pos + 1 >= buf.len() {
            Err(DecodeError::Truncated)
        } else {
            let t = ptr_target(buf[pos], buf[pos + 1]);
            if t < bound {
                name_text_at(buf, t, t)
            } else {
                Err(DecodeError::BadPointer)
            }
        }
    } else {
        let len = buf[pos] as int;
        if pos + 1 + len > buf.len() {
            Err(DecodeError::Truncated)
        } else {
            match name_text_at(buf, pos + 1 + len, bound) {
                Ok(rest) => Ok(
                    if rest.len() == 0 {
                        buf.subrange(pos + 1, pos + 1 + len)
                    } else {
                        buf.subrange(pos + 1, pos + 1 + len) + seq![DOT] + rest
                    },
                ),
                Err(e) => Err(e),
            }
        }
    }
}

/// How many bytes of the buffer the name at `pos` occupies in place: its
/// segments up to and including the zero byte, or up to and including the
/// first pointer. What a pointer targets is stored elsewhere and counts
/// for nothing here.
pub open spec fn name_len_at(buf: Seq<u8>, pos: int) -> Result<int, DecodeError>
    decreases buf.len() - pos,
{
    if pos < 0 || pos >= buf.len() {
        Err(DecodeError::Truncated)
    } else if buf[pos] == 0 {
        Ok(1int)
    } else if buf[pos] >= 192 {
        if pos + 1 >= buf.len() {
            Err(DecodeError::Truncated)
        } else {
            Ok(2int)
        }
    } else {
        let len = buf[pos] as int;
        if pos + 1 + len > buf.len() {
            Err(DecodeError::Truncated)
        } else {
            match name_len_at(buf, pos + 1 + len) {
                Ok(n) => Ok(1 + len + n),
                Err(e) => Err(e),
            }
        }
    }
}

/// The text a decode in progress will finish with: the segments already
/// read in `acc`, then — unless either side is empty — a '.' and whatever
/// the rest of the chain yields.
spec fn join_rest(acc: Seq<u8>, rest: Result<Seq<u8>, DecodeError>) -> Result<
    Seq<u8>,
    DecodeError,
> {
    match rest {
        Ok(t) => Ok(
            if acc.len() == 0 {
                t
            } else if t.len() == 0 {
                acc
            } else {
                acc + seq![DOT] + t
            },
        ),
        Err(e) => Err(e),
    }
}

/// The bytes a decode in progress has consumed in place, plus whatever the
/// rest of the first run takes.
spec fn add_consumed(k: int, rest: Result<int, DecodeError>) -> Result<int, DecodeError> {
    match rest {
        Ok(m) => Ok(k + m),
        Err(e) => Err(e),
    }
}

impl Label {
    /// Serializes the textual name as length-prefixed segments ended by a
    /// zero byte; never emits a compression pointer. Succeeds exactly when
    /// every dot-separated segment is 1 to 63 bytes long.
    pub fn encode(&self) -> (r: Result<Vec<u8>, EncodeError>)
        ensures
            r is Ok <==> valid_name(self@),
            r is Ok ==> r->Ok_0@ == name_wire(self@),
            r is Err ==> r->Err_0 == EncodeError::InvalidName,
    {
        let text = &self.0;
        let n: usize = text.len();
        let mut out: Vec<u8> = Vec::new();
        let mut seg_start: usize = 0;
        assert(text@.skip(0) =~= text@);
        loop
            invariant
                text@ == self@,
                n == text@.len(),
                seg_start <= n,
                valid_name(text@) <==> valid_name(text@.skip(seg_start as int)),
                name_wire(text@) == out@ + name_wire(text@.skip(seg_start as int)),
            decreases n - seg_start,
        {
            let ghost tail = text@.skip(seg_start as int);
            let ghost out_in = out@;
            let mut j: usize = seg_start;
            while j < n && text[j] != DOT
                invariant
                    n == text@.len(),
                    seg_start <= j <= n,
                    forall|k: int| seg_start <= k < j ==> text@[k] != DOT,
                decreases n - j,
            {
                j = j + 1;
            }
            let d: usize = j - seg_start;
            proof {
                assert forall|k: int| 0 <= k < d implies tail[k] != DOT by {
                    assert(tail[k] == text@[seg_start + k]);
                }
                if d < tail.len() {
                    assert(tail[d as int] == text@[j as int]);
                }
                lemma_first_dot_at(tail, d as int);
            }
            if d < 1 || d > 63 {
                proof {
                    assert(!valid_name(tail));
                }
                return Err(EncodeError::InvalidName);
            }
            out.push(d as u8);
            let ghost mid = out@;
            let mut k: usize = seg_start;
            while k < j
                invariant
                    n == text@.len(),
                    seg_start <= k <= j <= n,
                    out@ == mid + text@.subrange(seg_start as int, k as int),
                decreases j - k,
            {
                out.push(text[k]);
                assert(out@ =~= mid + text@.subrange(seg_start as int, k as int + 1));
                k = k + 1;
            }
            proof {
                assert(text@.subrange(seg_start as int, j as int) =~= tail.take(d as int));
                assert(out@ =~= out_in + seq![d as u8] + tail.take(d as int));
            }
            if j == n {
                out.push(0);
                proof {
                    assert(first_dot(tail) == d == tail.len());
                    assert(tail.take(d as int) =~= tail);
                    assert(name_wire(tail) == seq![tail.len() as u8] + tail + seq![0u8]);
                    assert(out@ =~= out_in + (seq![d as u8] + tail + seq![0u8]));
                    assert(out@ == name_wire(text@));
                    assert(valid_name(tail));
                }
                return Ok(out);
            }
            proof {
                assert(first_dot(tail) == d && d < tail.len());
                assert(tail.skip(d + 1) =~= text@.skip(j as int + 1));
                assert(name_wire(tail) == seq![d as u8] + tail.take(d as int) + name_wire(
                    tail.skip(d + 1),
                ));
                assert(out_in + name_wire(tail) =~= out@ + name_wire(text@.skip(j as int + 1)));
                assert(valid_name(tail) == valid_name(text@.skip(j as int + 1)));
            }
            seg_start = j + 1;
        }
    }
}

impl Label {
    /// Reads a name from `buf` starting at `start`: length-prefixed
    /// segments until a zero byte or a compression pointer, whose chain is
    /// followed as long as each link leads strictly backwards. Returns the
    /// dot-joined text and how many bytes the name occupies at `start`
    /// (pointer targets count for nothing). Rejects a chain that could
    /// cycle, and any read past the buffer, rather than looping.
    pub fn decode(buf: &Vec<u8>, start: usize) -> (r: Result<(Label, usize), DecodeError>)
        ensures
            r is Ok ==> name_text_at(buf@, start as int, start as int) == Ok::<
                Seq<u8>,
                DecodeError,
            >(r->Ok_0.0@) && name_len_at(buf@, start as int) == Ok::<int, DecodeError>(
                r->Ok_0.1 as int,
            ),
            r is Err ==> name_text_at(buf@, start as int, start as int) == Err::<
                Seq<u8>,
                DecodeError,
            >(r->Err_0),
    {
        let n: usize = buf.len();
        let mut acc: Vec<u8> = Vec::new();
        let mut pos: usize = start;
        let mut bound: usize = start;
        let mut jumped: bool = false;
        let mut used: usize = 0;
        loop
            invariant
                n == buf@.len(),
                name_text_at(buf@, start as int, start as int) == join_rest(
                    acc@,
                    name_text_at(buf@, pos as int, bound as int),
                ),
                !jumped ==> start <= pos && bound == start && name_len_at(buf@, start as int)
                    == add_consumed(pos - start, name_len_at(buf@, pos as int)),
                jumped ==> name_len_at(buf@, start as int) == Ok::<int, DecodeError>(used as int),
            decreases bound, n - pos,
        {
            if pos >= n {
                return Err(DecodeError::Truncated);
            }
            let b: u8 = buf[pos];
            if b == 0 {
                let consumed: usize = if jumped {
                    used
                } else {
                    pos + 1 - start
                };
                proof {
                    if acc@.len() == 0 {
                        assert(acc@ =~= Seq::<u8>::empty());
                    }
                }
                return Ok((Label(acc), consumed));
            } else if b >= 192 {
                if pos + 1 >= n {
                    return Err(DecodeError::Truncated);
                }
                let t: usize = (b as usize - 192) * 256 + (buf[pos + 1] as usize);
                assert(t == ptr_target(buf@[pos as int], buf@[pos as int + 1]));
                if t >= bound {
                    return Err(DecodeError::BadPointer);
                }
                proof {
                    assert(name_text_at(buf@, pos as int, bound as int) == name_text_at(
                        buf@,
                        t as int,
                        t as int,
                    ));
                }
                if !jumped {
                    used = pos + 2 - start;
                    jumped = true;
                }
                bound = t;
                pos = t;
            } else {
                let len: usize = b as usize;
                if len > n - (pos + 1) {
                    return Err(DecodeError::Truncated);
                }
                let ghost pos1 = pos as int + 1 + len as int;
                let ghost acc_in = acc@;
                let ghost rest = name_text_at(buf@, pos1, bound as int);
                if acc.len() > 0 {
                    acc.push(DOT);
                }
                let ghost mid = acc@;
                let mut k: usize = pos + 1;
                while k < pos + 1 + len
                    invariant
                        n == buf@.len(),
                        pos + 1 <= k <= pos + 1 + len,
                        pos + 1 + len <= n,
                        acc@ == mid + buf@.subrange(pos as int + 1, k as int),
                    decreases pos + 1 + len - k,
                {
                    acc.push(buf[k]);
                    assert(acc@ =~= mid + buf@.subrange(pos as int + 1, k as int + 1));
                    k = k + 1;
                }
                proof {
                    let seg = buf@.subrange(pos as int + 1, pos1);
                    assert(acc@ == mid + seg);
                    if rest is Ok {
                        let rtext = rest->Ok_0;
                        if rtext.len() == 0 {
                            assert(name_text_at(buf@, pos as int, bound as int) == Ok::<
                                Seq<u8>,
                                DecodeError,
                            >(seg));
                            assert(join_rest(acc_in, Ok(seg)) == join_rest(acc@, rest)) by {
                                if acc_in.len() == 0 {
                                    assert(acc@ =~= seg);
                                } else {
                                    assert(acc@ =~= acc_in + seq![DOT] + seg);
                                }
                            }
                        } else {
                            assert(name_text_at(buf@, pos as int, bound as int) == Ok::<
                                Seq<u8>,
                                DecodeError,
                            >(seg + seq![DOT] + rtext));
                            assert(join_rest(acc_in, Ok(seg + seq![DOT] + rtext)) == join_rest(
                                acc@,
                                rest,
                            )) by {
                                if acc_in.len() == 0 {
                                    assert(acc@ =~= seg);
                                    assert(acc@ + seq![DOT] + rtext =~= seg + seq![DOT] + rtext);
                                } else {
                                    assert(acc@ =~= acc_in + seq![DOT] + seg);
                                    assert(acc@ + seq![DOT] + rtext =~= acc_in + seq![DOT] + (seg
                                        + seq![DOT] + rtext));
                                }
                            }
                        }
                    }
                }
                pos = pos + 1 + len;
            }
        }
    }
}

/// Law: a name whose uncompressed wire form sits at `pos` decodes back to
/// exactly that name, whatever `bound` pointers would be held to — no
/// compression is involved — and occupies exactly its wire length.
pub proof fn lemma_name_wire_round_trip(buf: Seq<u8>, pos: int, bound: int, name: Seq<u8>)
    requires
        valid_name(name),
        0 <= pos,
        pos + name_wire(name).len() <= buf.len(),
        buf.subrange(pos, pos + name_wire(name).len()) == name_wire(name),
    ensures
        name_text_at(buf, pos, bound) == Ok::<Seq<u8>, DecodeError>(name),
        name_len_at(buf, pos) == Ok::<int, DecodeError>(name_wire(name).len() as int),
    decreases name.len(),
{
    lemma_first_dot(name);
    lemma_name_wire_len(name);
    let d = first_dot(name);
    let w = name_wire(name);
    assert(buf[pos] == w[0]) by {
        assert(buf.subrange(pos, pos + w.len())[0] == buf[pos]);
    }
    assert forall|k: int| 0 <= k < w.len() implies buf[pos + k] == w[k] by {
        assert(buf.subrange(pos, pos + w.len())[k] == buf[pos + k]);
    }
    if d == name.len() {
        assert(w == seq![name.len() as u8] + name + seq![0u8]);
        assert(buf[pos] == d as u8);
        assert(1 <= d <= 63);
        assert(buf.subrange(pos + 1, pos + 1 + d) =~= name) by {
            assert forall|k: int| 0 <= k < d implies buf[pos + 1 + k] == name[k] by {
                assert(w[1 + k] == name[k]);
            }
        }
        assert(buf[pos + 1 + d] == w[d + 1] && w[d + 1] == 0);
        assert(name_text_at(buf, pos + 1 + d, bound) == Ok::<Seq<u8>, DecodeError>(Seq::empty()));
        assert(name_len_at(buf, pos + 1 + d) == Ok::<int, DecodeError>(1int));
    } else {
        let rest = name.skip(d + 1);
        let w2 = name_wire(rest);
        assert(valid_name(rest));
        lemma_name_wire_len(rest);
        assert(w == seq![d as u8] + name.take(d) + w2);
        assert(buf[pos] == d as u8);
        assert(1 <= d <= 63);
        let pos2 = pos + 1 + d;
        assert(buf.subrange(pos2, pos2 + w2.len()) =~= w2) by {
            assert forall|k: int| 0 <= k < w2.len() implies buf[pos2 + k] == w2[k] by {
                assert(w[1 + d + k] == w2[k]);
            }
        }
        lemma_name_wire_round_trip(buf, pos2, bound, rest);
        lemma_first_dot(rest);
        assert(rest.len() >= 1);
        assert(buf.subrange(pos + 1, pos + 1 + d) =~= name.take(d)) by {
            assert forall|k: int| 0 <= k < d implies buf[pos + 1 + k] == name.take(d)[k] by {
                assert(w[1 + k] == name[k]);
            }
        }
        assert(name_text_at(buf, pos, bound) == Ok::<Seq<u8>, DecodeError>(
            name.take(d) + seq![DOT] + rest,
        ));
        assert(name.take(d) + seq![DOT] + rest =~= name);
        assert(name_len_at(buf, pos) == Ok::<int, DecodeError>(1 + d + w2.len()));
    }
}

/// Law: for every name whose dot-separated segments are 1 to 63 bytes
/// long, decoding its own uncompressed wire form from the start yields
/// the name back.
pub proof fn lemma_name_round_trip(name: Seq<u8>)
    requires
        valid_name(name),
    ensures
        name_text_at(name_wire(name), 0, 0) == Ok::<Seq<u8>, DecodeError>(name),
{
    let w = name_wire(name);
    assert(w.subrange(0, w.len() as int) =~= w);
    lemma_name_wire_round_trip(w, 0, 0, name);
}

/// Law: decoding at a compression pointer yields exactly what decoding at
/// its target yields — a name stored once earlier in the message is
/// recovered unchanged through the pointer.
pub proof fn lemma_pointer_dereference(buf: Seq<u8>, pos: int, bound: int)
    requires
        0 <= pos,
        pos + 1 < buf.len(),
        buf[pos] >= 192,
        ptr_target(buf[pos], buf[pos + 1]) < bound,
    ensures
        name_text_at(buf, pos, bound) == name_text_at(
            buf,
            ptr_target(buf[pos], buf[pos + 1]),
            ptr_target(buf[pos], buf[pos + 1]),
        ),
{
}

/// Law: a name whose uncompressed wire form sits at `target` is decoded,
/// byte for byte, through a pointer standing anywhere after it.
pub proof fn lemma_compression_round_trip(buf: Seq<u8>, pos: int, bound: int, name: Seq<u8>)
    requires
        valid_name(name),
        0 <= pos,
        pos + 1 < buf.len(),
        buf[pos] >= 192,
        ptr_target(buf[pos], buf[pos + 1]) < bound,
        ptr_target(buf[pos], buf[pos + 1]) + name_wire(name).len() <= buf.len(),
        buf.subrange(
            ptr_target(buf[pos], buf[pos + 1]),
            ptr_target(buf[pos], buf[pos + 1]) + name_wire(name).len(),
        ) == name_wire(name),
    ensures
        name_text_at(buf, pos, bound) == Ok::<Seq<u8>, DecodeError>(name),
        name_len_at(buf, pos) == Ok::<int, DecodeError>(2int),
{
    let t = ptr_target(buf[pos], buf[pos + 1]);
    lemma_pointer_dereference(buf, pos, bound);
    lemma_name_wire_round_trip(buf, t, t, name);
}

/// Law: a pointer that does not lead strictly backwards is rejected, never
/// followed — in particular one that targets its own offset, or any link
/// of a chain that could come back to an offset already visited.
pub proof fn lemma_pointer_cycle_rejected(buf: Seq<u8>, pos: int, bound: int)
    requires
        0 <= pos,
        pos + 1 < buf.len(),
        buf[pos] >= 192,
        ptr_target(buf[pos], buf[pos + 1]) >= bound,
    ensures
        name_text_at(buf, pos, bound) == Err::<Seq<u8>, DecodeError>(DecodeError::BadPointer),
{
}

} // verus!
