use crate::parser::error::ParserError;
use vstd::prelude::*;
use vstd::utf8::decode_utf8;
use vstd::utf8::encode_utf8;
use vstd::utf8::valid_utf8;

verus! {

/// The byte that separates labels in a decoded name.
pub const LABEL_SEPARATOR: u8 = 46;

/// Whether a length byte is really a compression pointer (top two bits set).
pub open spec fn is_pointer_byte(b: u8) -> bool {
    b & 0xc0 == 0xc0
}

/// The 14-bit offset a two-byte compression pointer redirects to.
pub open spec fn pointer_target(b0: u8, b1: u8) -> int {
    ((b0 & 0x3f) as int) * 256 + (b1 as int)
}

/// Reads a name as raw label bytes, each label followed by one separator,
/// starting at `off` in `cur`. A compression pointer redirects the read into
/// `orig`; the consumed count returned with the bytes is the offset just past
/// the terminating zero, or just past the first pointer if one was followed.
/// `fuel` bounds how many pointers may be followed; a chain that exhausts it
/// is reported as running off the end of the packet, as is any read past the
/// end of a buffer.
pub open spec fn spec_read_labels(cur: Seq<u8>, orig: Seq<u8>, off: int, fuel: nat) -> Result<
    (Seq<u8>, int),
    ParserError,
>
    decreases fuel, cur.len() - off,
{
    if off < 0 || off >= cur.len() {
        Err(ParserError::UnexpectedEOP)
    } else if cur[off] == 0 {
        Ok((Seq::empty(), off + 1))
    } else if is_pointer_byte(cur[off]) {
        if off + 1 >= cur.len() {
            Err(ParserError::UnexpectedEOP)
        } else {
            let target = pointer_target(cur[off], cur[off + 1]);
            if target >= orig.len() {
                Err(ParserError::UnexpectedEOP)
            } else if fuel == 0 {
                Err(ParserError::UnexpectedEOP)
            } else {
                match spec_read_labels(orig, orig, target, (fuel - 1) as nat) {
                    Ok(p) => Ok((p.0, off + 2)),
                    Err(e) => Err(e),
                }
            }
        }
    } else {
        let n = cur[off] as int;
        if off + 1 + n > cur.len() {
            Err(ParserError::UnexpectedEOP)
        } else {
            match spec_read_labels(cur, orig, off + 1 + n, fuel) {
                Ok(p) => Ok(
                    (cur.subrange(off + 1, off + 1 + n) + seq![LABEL_SEPARATOR] + p.0, p.1),
                ),
                Err(e) => Err(e),
            }
        }
    }
}

/// The label bytes of the name at the front of `data`, with the pointer
/// budget every read starts from.
pub open spec fn spec_read_labels_full(data: Seq<u8>, orig: Seq<u8>) -> Result<
    (Seq<u8>, int),
    ParserError,
> {
    spec_read_labels(data, orig, 0, orig.len() as nat)
}

/// Drops the separator that follows the last label, if any.
pub open spec fn spec_trim_separator(s: Seq<u8>) -> Seq<u8> {
    if s.len() > 0 {
        s.drop_last()
    } else {
        s
    }
}

/// The dotted name at the front of `data` as text, with how many bytes of
/// `data` the caller must skip. Label bytes that are not valid UTF-8 are
/// rejected.
pub open spec fn spec_read_qname(data: Seq<u8>, orig: Seq<u8>) -> Result<
    (Seq<char>, int),
    ParserError,
> {
    match spec_read_labels_full(data, orig) {
        Ok(p) => {
            let name = spec_trim_separator(p.0);
            if valid_utf8(name) {
                Ok((decode_utf8(name), p.1))
            } else {
                Err(ParserError::LabelIsNotUTF8)
            }
        },
        Err(e) => Err(e),
    }
}

/// Whatever a successful read consumed lies inside the buffer it started in,
/// and is at least one byte.
pub proof fn lemma_read_labels_consumed(cur: Seq<u8>, orig: Seq<u8>, off: int, fuel: nat)
    requires
        spec_read_labels(cur, orig, off, fuel) is Ok,
    ensures
        0 < spec_read_labels(cur, orig, off, fuel)->Ok_0.1 <= cur.len(),
    decreases fuel, cur.len() - off,
{
    if 0 <= off < cur.len() && cur[off] != 0 && !is_pointer_byte(cur[off]) {
        let n = cur[off] as int;
        if off + 1 + n <= cur.len() {
            lemma_read_labels_consumed(cur, orig, off + 1 + n, fuel);
        }
    }
}

/// The only error a label read itself can report is a short read: the
/// text encoding is checked later, on the collected bytes.
pub proof fn lemma_read_labels_error_is_eop(cur: Seq<u8>, orig: Seq<u8>, off: int, fuel: nat)
    requires
        spec_read_labels(cur, orig, off, fuel) is Err,
    ensures
        spec_read_labels(cur, orig, off, fuel) == Err::<(Seq<u8>, int), ParserError>(
            ParserError::UnexpectedEOP,
        ),
    decreases fuel, cur.len() - off,
{
    if 0 <= off < cur.len() && cur[off] != 0 {
        if is_pointer_byte(cur[off]) {
            if off + 1 < cur.len() && pointer_target(cur[off], cur[off + 1]) < orig.len() && fuel
                > 0 {
                if spec_read_labels(orig, orig, pointer_target(cur[off], cur[off + 1]), (fuel
                    - 1) as nat) is Err {
                    lemma_read_labels_error_is_eop(
                        orig,
                        orig,
                        pointer_target(cur[off], cur[off + 1]),
                        (fuel - 1) as nat,
                    );
                }
            }
        } else {
            let n = cur[off] as int;
            if off + 1 + n <= cur.len() {
                if spec_read_labels(cur, orig, off + 1 + n, fuel) is Err {
                    lemma_read_labels_error_is_eop(cur, orig, off + 1 + n, fuel);
                }
            }
        }
    }
}

/// The length-prefixed wire encoding of a run of labels, without the
/// terminating zero byte.
pub open spec fn encode_labels(labels: Seq<Seq<u8>>) -> Seq<u8>
    decreases labels.len(),
{
    if labels.len() == 0 {
        Seq::empty()
    } else {
        seq![labels[0].len() as u8] + labels[0] + encode_labels(labels.drop_first())
    }
}

/// The same labels as decoding renders them: each followed by one
/// separator.
pub open spec fn separated_labels(labels: Seq<Seq<u8>>) -> Seq<u8>
    decreases labels.len(),
{
    if labels.len() == 0 {
        Seq::empty()
    } else {
        labels[0] + seq![LABEL_SEPARATOR] + separated_labels(labels.drop_first())
    }
}

/// Well-formed wire labels: never empty, and at most 63 bytes, so that a
/// length byte is never mistaken for a pointer.
pub open spec fn wf_labels(labels: Seq<Seq<u8>>) -> bool {
    forall|i: int| 0 <= i < labels.len() ==> 1 <= (#[trigger] labels[i]).len() <= 63
}

/// A name encoded without compression decodes to exactly its labels, and
/// consumes exactly its encoded length: the labels, the length byte of
/// each, and the terminating zero.
pub proof fn lemma_uncompressed_roundtrip(
    buf: Seq<u8>,
    orig: Seq<u8>,
    off: int,
    labels: Seq<Seq<u8>>,
    fuel: nat,
)
    requires
        wf_labels(labels),
        0 <= off,
        off + encode_labels(labels).len() + 1 <= buf.len(),
        buf.subrange(off, off + encode_labels(labels).len() + 1) == encode_labels(labels)
            + seq![0u8],
    ensures
        spec_read_labels(buf, orig, off, fuel) == Ok::<(Seq<u8>, int), ParserError>(
            (separated_labels(labels), off + encode_labels(labels).len() + 1),
        ),
    decreases labels.len(),
{
    let enc = encode_labels(labels);
    let window = buf.subrange(off, off + enc.len() + 1);
    if labels.len() == 0 {
        assert(buf[off] == window[0]);
    } else {
        let l0 = labels[0];
        let rest = labels.drop_first();
        let enc_rest = encode_labels(rest);
        let n = l0.len() as int;
        assert(buf[off] == window[0]);
        assert(buf[off] == l0.len() as u8);
        let b = buf[off];
        assert(b as int == n);
        assert(b != 0);
        assert(!is_pointer_byte(b)) by {
            assert(b <= 63 ==> b & 0xc0 != 0xc0) by (bit_vector);
        }
        assert(buf.subrange(off + 1, off + 1 + n) =~= l0) by {
            assert forall|j: int| 0 <= j < n implies buf[off + 1 + j] == l0[j] by {
                assert(buf[off + 1 + j] == window[1 + j]);
                assert(window[1 + j] == (seq![l0.len() as u8] + l0 + enc_rest + seq![0u8])[1 + j]);
            }
        }
        assert(buf.subrange(off + 1 + n, off + 1 + n + enc_rest.len() + 1) =~= enc_rest
            + seq![0u8]) by {
            assert forall|j: int| 0 <= j < enc_rest.len() + 1 implies buf[off + 1 + n + j] == (
            enc_rest + seq![0u8])[j] by {
                assert(buf[off + 1 + n + j] == window[1 + n + j]);
            }
        }
        lemma_uncompressed_roundtrip(buf, orig, off + 1 + n, rest, fuel);
        assert(l0 + seq![LABEL_SEPARATOR] + separated_labels(rest) == separated_labels(labels));
    }
}

/// A name stored as some leading labels and then a pointer to offset `k`
/// decodes to those labels followed by whatever the name at `k` decodes
/// to, and consumes only up to the pointer's own two bytes.
pub proof fn lemma_compressed_name(
    buf: Seq<u8>,
    orig: Seq<u8>,
    off: int,
    labels: Seq<Seq<u8>>,
    k: int,
    fuel: nat,
)
    requires
        wf_labels(labels),
        0 <= off,
        off + encode_labels(labels).len() + 2 <= buf.len(),
        buf.subrange(off, off + encode_labels(labels).len()) == encode_labels(labels),
        is_pointer_byte(buf[off + encode_labels(labels).len()]),
        pointer_target(
            buf[off + encode_labels(labels).len()],
            buf[off + encode_labels(labels).len() + 1],
        ) == k,
        0 <= k < orig.len(),
        fuel >= 1,
        spec_read_labels(orig, orig, k, (fuel - 1) as nat) is Ok,
    ensures
        spec_read_labels(buf, orig, off, fuel) == Ok::<(Seq<u8>, int), ParserError>(
            (
                separated_labels(labels) + spec_read_labels(orig, orig, k, (fuel - 1) as nat)->Ok_0.0,
                off + encode_labels(labels).len() + 2,
            ),
        ),
    decreases labels.len(),
{
    let enc = encode_labels(labels);
    let tail = spec_read_labels(orig, orig, k, (fuel - 1) as nat)->Ok_0.0;
    if labels.len() == 0 {
        let pb = buf[off];
        assert(pb & 0xc0 == 0xc0 ==> pb != 0) by (bit_vector);
        assert(separated_labels(labels) + tail =~= tail);
        assert(spec_read_labels(buf, orig, off, fuel) == Ok::<(Seq<u8>, int), ParserError>(
            (tail, off + 2),
        ));
    } else {
        let l0 = labels[0];
        let rest = labels.drop_first();
        let enc_rest = encode_labels(rest);
        let n = l0.len() as int;
        assert(enc == seq![l0.len() as u8] + l0 + enc_rest);
        assert(enc.len() == 1 + n + enc_rest.len());
        let window = buf.subrange(off, off + enc.len());
        assert(buf[off] == window[0]);
        assert(buf[off] == l0.len() as u8);
        let b = buf[off];
        assert(b as int == n);
        assert(b != 0);
        assert(!is_pointer_byte(b)) by {
            assert(b <= 63 ==> b & 0xc0 != 0xc0) by (bit_vector);
        }
        assert(buf.subrange(off + 1, off + 1 + n) =~= l0) by {
            assert forall|j: int| 0 <= j < n implies buf[off + 1 + j] == l0[j] by {
                assert(buf[off + 1 + j] == window[1 + j]);
            }
        }
        assert(buf.subrange(off + 1 + n, off + 1 + n + enc_rest.len()) =~= enc_rest) by {
            assert forall|j: int| 0 <= j < enc_rest.len() implies buf[off + 1 + n + j]
                == enc_rest[j] by {
                assert(buf[off + 1 + n + j] == window[1 + n + j]);
            }
        }
        assert(is_pointer_byte(buf[off + 1 + n + enc_rest.len()]));
        lemma_compressed_name(buf, orig, off + 1 + n, rest, k, fuel);
        assert(spec_read_labels(buf, orig, off + 1 + n, fuel) == Ok::<
            (Seq<u8>, int),
            ParserError,
        >((separated_labels(rest) + tail, off + 1 + n + enc_rest.len() + 2)));
        assert(l0 + seq![LABEL_SEPARATOR] + (separated_labels(rest) + tail) =~= (l0 + seq![
            LABEL_SEPARATOR,
        ] + separated_labels(rest)) + tail);
        assert(l0 + seq![LABEL_SEPARATOR] + separated_labels(rest) == separated_labels(labels));
        assert(separated_labels(labels) + tail == (l0 + seq![LABEL_SEPARATOR] + separated_labels(
            rest,
        )) + tail);
    }
}

/// The round trip at the level of `Qname::read`'s own contract: a buffer
/// that starts with an uncompressed, UTF-8-clean name decodes to its
/// dotted text and consumes exactly the encoded length.
pub proof fn lemma_uncompressed_roundtrip_qname(data: Seq<u8>, orig: Seq<u8>, labels: Seq<Seq<u8>>)
    requires
        wf_labels(labels),
        encode_labels(labels).len() + 1 <= data.len(),
        data.subrange(0, encode_labels(labels).len() as int + 1) == encode_labels(labels)
            + seq![0u8],
        valid_utf8(spec_trim_separator(separated_labels(labels))),
    ensures
        spec_read_qname(data, orig) == Ok::<(Seq<char>, int), ParserError>(
            (
                decode_utf8(spec_trim_separator(separated_labels(labels))),
                encode_labels(labels).len() as int + 1,
            ),
        ),
{
    lemma_uncompressed_roundtrip(data, orig, 0, labels, orig.len() as nat);
}

/// A successful read of a whole name consumed at least one byte of `data`
/// and no more than all of it.
pub proof fn lemma_read_qname_consumed(data: Seq<u8>, orig: Seq<u8>)
    requires
        spec_read_qname(data, orig) is Ok,
    ensures
        0 < spec_read_qname(data, orig)->Ok_0.1 <= data.len(),
{
    lemma_read_labels_consumed(data, orig, 0, orig.len() as nat);
}

/// Relies on String::from_utf8: it returns a string over exactly the given
/// bytes, and fails precisely when they are not valid UTF-8.
#[verifier::external_body]
fn string_from_utf8(bytes: Vec<u8>) -> (r: Option<String>)
    ensures
        r is Some <==> valid_utf8(bytes@),
        r matches Some(s) ==> encode_utf8(s@) == bytes@,
{
    String::from_utf8(bytes).ok()
}

/// Decodes DNS names, plain or compressed.
#[derive(Debug, Default)]
pub struct Qname {}

impl Qname {
    /// Reads the name at the front of `data`. Compression pointers are
    /// resolved against `original`, the whole message buffer. Returns the
    /// dotted name and how many bytes of `data` were consumed: up to the
    /// terminating zero, or up to the first pointer plus its two bytes.
    pub fn read(data: &[u8], original: &[u8]) -> (r: Result<(String, usize), ParserError>)
        ensures
            match spec_read_qname(data@, original@) {
                Ok(p) => r matches Ok(q) && q.0@ == p.0 && q.1 == p.1,
                Err(e) => r == Err::<(String, usize), ParserError>(e),
            },
    {
        let ghost full = spec_read_labels_full(data@, original@);
        let mut in_orig: bool = false;
        let mut off: usize = 0;
        let mut out: Vec<u8> = Vec::new();
        let mut first_ptr: Option<usize> = None;
        let mut fuel_left: usize = original.len();

        loop
            invariant
                in_orig <==> first_ptr is Some,
                match first_ptr {
                    Some(p) => p + 2 <= data@.len() && data@.len() <= usize::MAX,
                    None => true,
                },
                off <= if in_orig {
                    original@.len()
                } else {
                    data@.len()
                },
                full == spec_read_labels_full(data@, original@),
                match spec_read_labels(
                    if in_orig {
                        original@
                    } else {
                        data@
                    },
                    original@,
                    off as int,
                    fuel_left as nat,
                ) {
                    Ok(p) => full matches Ok(q) && q.0 == out@ + p.0 && q.1 == (match first_ptr {
                        Some(fp) => fp as int + 2,
                        None => p.1,
                    }),
                    Err(e) => full == Err::<(Seq<u8>, int), ParserError>(e),
                },
            decreases fuel_left, (if in_orig { original@.len() } else { data@.len() }) - off,
        {
            let cur: &[u8] = if in_orig {
                original
            } else {
                data
            };
            if off >= cur.len() {
                return Err(ParserError::UnexpectedEOP);
            }
            let b = cur[off];
            if b == 0 {
                let ghost out_before = out@;
                proof {
                    assert(out_before + Seq::<u8>::empty() =~= out_before);
                    assert(full is Ok && full->Ok_0.0 == out_before);
                }
                out.pop();
                proof {
                    assert(spec_trim_separator(full->Ok_0.0) =~= out@);
                }
                let consumed: usize = match first_ptr {
                    Some(p) => p + 2,
                    None => off + 1,
                };
                return match string_from_utf8(out) {
                    Some(s) => {
                        proof {
                            vstd::utf8::encode_utf8_decode_utf8(s@);
                        }
                        Ok((s, consumed))
                    },
                    None => Err(ParserError::LabelIsNotUTF8),
                };
            } else if b & 0xc0 == 0xc0 {
                if off + 1 >= cur.len() {
                    return Err(ParserError::UnexpectedEOP);
                }
                let target: usize = ((b & 0x3f) as usize) * 256 + (cur[off + 1] as usize);
                if target >= original.len() {
                    return Err(ParserError::UnexpectedEOP);
                }
                if fuel_left == 0 {
                    return Err(ParserError::UnexpectedEOP);
                }
                fuel_left = fuel_left - 1;
                if first_ptr.is_none() {
                    first_ptr = Some(off);
                }
                in_orig = true;
                off = target;
            } else {
                let n = b as usize;
                if n > cur.len() - (off + 1) {
                    return Err(ParserError::UnexpectedEOP);
                }
                let ghost out0 = out@;
                out.extend_from_slice(&cur[off + 1..off + 1 + n]);
                out.push(LABEL_SEPARATOR);
                proof {
                    let curs = cur@;
                    let label = curs.subrange(off + 1, off + 1 + n as int);
                    assert(out@ =~= out0 + label + seq![LABEL_SEPARATOR]);
                    let next = spec_read_labels(
                        curs,
                        original@,
                        off + 1 + n as int,
                        fuel_left as nat,
                    );
                    if next is Ok {
                        assert(out0 + (label + seq![LABEL_SEPARATOR] + next->Ok_0.0) =~= out@
                            + next->Ok_0.0);
                    }
                }
                off = off + 1 + n;
            }
        }
    }
}

} // verus!
