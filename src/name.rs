//! Decoding of domain names, with compression pointers.
use vstd::prelude::*;
use crate::buffer::{BytePacketBuffer, DnsError, BUFFER_SIZE};

verus! {

/// How many compression pointers one name may follow.
pub const MAX_POINTER_HOPS: usize = 16;

/// The text that lossy UTF-8 decoding makes of the bytes `b`.
pub uninterp spec fn lossy_text(b: Seq<u8>) -> Seq<char>;

/// The lower-case form of the text `s`.
pub uninterp spec fn lower_text(s: Seq<char>) -> Seq<char>;

/// Relies on `String::from_utf8_lossy`: the text of `b`, invalid sequences
/// replaced, which depends on the bytes alone.
#[verifier::external_body]
fn utf8_lossy(b: &[u8]) -> (r: String)
    ensures
        r@ == lossy_text(b@),
{
    String::from_utf8_lossy(b).into_owned()
}

/// Relies on `str::to_lowercase`: the lower-case form of `s`, which depends
/// on its characters alone.
#[verifier::external_body]
fn lowercase(s: &str) -> (r: String)
    ensures
        r@ == lower_text(s@),
{
    s.to_lowercase()
}

/// The text that a label of raw bytes contributes to a name.
pub open spec fn label_text(l: Seq<u8>) -> Seq<char> {
    lower_text(lossy_text(l))
}

/// The dot-joined text of a sequence of labels.
pub open spec fn join_labels(ls: Seq<Seq<u8>>) -> Seq<char>
    decreases ls.len(),
{
    if ls.len() == 0 {
        Seq::empty()
    } else if ls.len() == 1 {
        label_text(ls[0])
    } else {
        join_labels(ls.drop_last()) + seq!['.'] + label_text(ls.last())
    }
}

/// Whether a length byte is a compression pointer (top two bits set).
pub open spec fn is_pointer(len: u8) -> bool {
    len & 0xC0 == 0xC0
}

/// The 14-bit offset that a compression pointer made of `b1` and `b2` names.
pub open spec fn pointer_target(b1: u8, b2: u8) -> int {
    (b1 & 0x3F) as int * 0x100 + b2 as int
}

/// The labels of the name encoded in `b` at offset `p`, following at most
/// `hops` compression pointers, with the offset just past the name's own
/// encoding at `p`: past its first pointer, or else past its terminating zero.
pub open spec fn name_at(b: Seq<u8>, p: int, hops: nat) -> Result<(Seq<Seq<u8>>, int), DnsError>
    decreases hops, b.len() - p,
{
    if p < 0 || p >= b.len() {
        Err(DnsError::BufferOverrun)
    } else {
        let len = b[p];
        if is_pointer(len) {
            if p + 1 >= b.len() {
                Err(DnsError::BufferOverrun)
            } else if hops == 0 {
                Err(DnsError::CompressionLoop)
            } else {
                match name_at(b, pointer_target(len, b[p + 1]), (hops - 1) as nat) {
                    Ok((ls, _)) => Ok((ls, p + 2)),
                    Err(e) => Err(e),
                }
            }
        } else if len == 0 {
            Ok((Seq::empty(), p + 1))
        } else if p + 1 + len > b.len() {
            Err(DnsError::BufferOverrun)
        } else {
            match name_at(b, p + 1 + len, hops) {
                Ok((ls, e)) => Ok((seq![b.subrange(p + 1, p + 1 + len)] + ls, e)),
                Err(e) => Err(e),
            }
        }
    }
}

/// What decoding the name at `p` gives, with the full pointer allowance.
pub open spec fn decode_name(b: Seq<u8>, p: int) -> Result<(Seq<Seq<u8>>, int), DnsError> {
    name_at(b, p, MAX_POINTER_HOPS as nat)
}

/// A name that decodes occupies at least one byte, all inside the buffer.
pub(crate) proof fn lemma_name_extent(b: Seq<u8>, p: int, hops: nat)
    requires
        name_at(b, p, hops) is Ok,
    ensures
        p + 1 <= name_at(b, p, hops)->Ok_0.1 <= b.len(),
    decreases b.len() - p,
{
    let len = b[p];
    if !is_pointer(len) && len != 0 {
        lemma_name_extent(b, p + 1 + len, hops);
    }
}

/// Whether every label is between 1 and 63 bytes long, as a label on the
/// wire must be.
pub open spec fn valid_labels(ls: Seq<Seq<u8>>) -> bool {
    forall|i: int| 0 <= i < ls.len() ==> 1 <= #[trigger] ls[i].len() <= 63
}

/// The labels `ls` on the wire, each as its length byte then its bytes,
/// without a terminator.
pub open spec fn encode_labels(ls: Seq<Seq<u8>>) -> Seq<u8>
    decreases ls.len(),
{
    if ls.len() == 0 {
        Seq::empty()
    } else {
        seq![ls[0].len() as u8] + ls[0] + encode_labels(ls.drop_first())
    }
}

/// The uncompressed encoding of the name made of the labels `ls`.
pub open spec fn encode_name(ls: Seq<Seq<u8>>) -> Seq<u8> {
    encode_labels(ls).push(0u8)
}

proof fn lemma_short_length_is_label(len: u8)
    requires
        1 <= len <= 63,
    ensures
        !is_pointer(len),
{
    assert(1 <= len <= 63 ==> len & 0xC0 != 0xC0) by (bit_vector);
}

/// Decoding reads a run of encoded labels one by one, then goes on with
/// whatever follows them.
proof fn lemma_labels_then(b: Seq<u8>, p: int, ls: Seq<Seq<u8>>, hops: nat)
    requires
        0 <= p,
        valid_labels(ls),
        p + encode_labels(ls).len() <= b.len(),
        b.subrange(p, p + encode_labels(ls).len()) == encode_labels(ls),
    ensures
        name_at(b, p, hops) == match name_at(b, p + encode_labels(ls).len(), hops) {
            Ok((rest, e)) => Ok::<(Seq<Seq<u8>>, int), DnsError>((ls + rest, e)),
            Err(er) => Err::<(Seq<Seq<u8>>, int), DnsError>(er),
        },
    decreases ls.len(),
{
    let enc = encode_labels(ls);
    if ls.len() == 0 {
        match name_at(b, p, hops) {
            Ok((rest, e)) => {
                assert(ls + rest =~= rest);
            },
            Err(_) => {},
        }
    } else {
        let l = ls[0];
        let tail = ls.drop_first();
        let q = p + 1 + l.len();
        assert(valid_labels(tail)) by {
            assert forall|i: int| 0 <= i < tail.len() implies 1 <= #[trigger] tail[i].len() <= 63 by {
                assert(tail[i] == ls[i + 1]);
            }
        }
        assert(1 <= ls[0].len() <= 63);
        assert(enc =~= seq![l.len() as u8] + l + encode_labels(tail));
        assert(b[p] == enc[0]);
        assert(b[p] == l.len() as u8);
        lemma_short_length_is_label(b[p]);
        assert(b.subrange(p + 1, q) =~= l) by {
            assert forall|i: int| 0 <= i < l.len() implies b.subrange(p + 1, q)[i] == l[i] by {
                assert(b[p + 1 + i] == enc[1 + i]);
            }
        }
        assert(b.subrange(q, q + encode_labels(tail).len()) =~= encode_labels(tail)) by {
            assert forall|i: int| 0 <= i < encode_labels(tail).len() implies b.subrange(
                q,
                q + encode_labels(tail).len(),
            )[i] == encode_labels(tail)[i] by {
                assert(b[q + i] == enc[1 + l.len() + i]);
            }
        }
        lemma_labels_then(b, q, tail, hops);
        match name_at(b, q + encode_labels(tail).len(), hops) {
            Ok((rest, e)) => {
                assert(seq![l] + (tail + rest) =~= ls + rest);
            },
            Err(_) => {},
        }
    }
}

/// A name written out as labels and a terminating zero decodes to exactly
/// those labels, and decoding ends just past the zero.
pub proof fn lemma_plain_name_round_trip(b: Seq<u8>, p: int, ls: Seq<Seq<u8>>)
    requires
        0 <= p,
        valid_labels(ls),
        p + encode_name(ls).len() <= b.len(),
        b.subrange(p, p + encode_name(ls).len()) == encode_name(ls),
    ensures
        decode_name(b, p) == Ok::<(Seq<Seq<u8>>, int), DnsError>(
            (ls, p + encode_name(ls).len()),
        ),
{
    let enc = encode_labels(ls);
    let q = p + enc.len();
    assert(b.subrange(p, q) =~= enc) by {
        assert forall|i: int| 0 <= i < enc.len() implies b.subrange(p, q)[i] == enc[i] by {
            assert(b[p + i] == encode_name(ls)[i]);
        }
    }
    assert(b[q] == encode_name(ls)[enc.len() as int]);
    assert(b[q] == 0);
    assert(0u8 & 0xC0 != 0xC0) by (bit_vector);
    assert(name_at(b, q, MAX_POINTER_HOPS as nat) == Ok::<(Seq<Seq<u8>>, int), DnsError>(
        (Seq::empty(), q + 1),
    ));
    lemma_labels_then(b, p, ls, MAX_POINTER_HOPS as nat);
    assert(ls + Seq::<Seq<u8>>::empty() =~= ls);
}

/// A name written out as labels followed by a compression pointer decodes to
/// those labels followed by the name at the pointer's target, and decoding
/// ends two bytes past the pointer: two bytes past the start when there are
/// no labels before it.
pub proof fn lemma_compressed_name_round_trip(b: Seq<u8>, p: int, ls: Seq<Seq<u8>>)
    requires
        0 <= p,
        valid_labels(ls),
        p + encode_labels(ls).len() + 2 <= b.len(),
        b.subrange(p, p + encode_labels(ls).len()) == encode_labels(ls),
        is_pointer(b[p + encode_labels(ls).len()]),
        name_at(
            b,
            pointer_target(b[p + encode_labels(ls).len()], b[p + encode_labels(ls).len() + 1]),
            (MAX_POINTER_HOPS - 1) as nat,
        ) is Ok,
    ensures
        ({
            let q = p + encode_labels(ls).len();
            let target = pointer_target(b[q], b[q + 1]);
            decode_name(b, p) == Ok::<(Seq<Seq<u8>>, int), DnsError>(
                (ls + name_at(b, target, (MAX_POINTER_HOPS - 1) as nat)->Ok_0.0, q + 2),
            )
        }),
{
    lemma_labels_then(b, p, ls, MAX_POINTER_HOPS as nat);
}

/// A compression pointer that points at itself makes decoding fail with
/// `CompressionLoop`, whatever the pointer allowance.
pub proof fn lemma_self_pointer_loops(b: Seq<u8>, p: int, hops: nat)
    requires
        0 <= p,
        p + 1 < b.len(),
        is_pointer(b[p]),
        pointer_target(b[p], b[p + 1]) == p,
    ensures
        name_at(b, p, hops) == Err::<(Seq<Seq<u8>>, int), DnsError>(DnsError::CompressionLoop),
    decreases hops,
{
    if hops > 0 {
        lemma_self_pointer_loops(b, p, (hops - 1) as nat);
    }
}

impl BytePacketBuffer {
    /// Decodes the name at the position and appends its lower-cased,
    /// dot-joined text to `outstr`. The position ends just past the name's own
    /// encoding: past its first compression pointer, or else past its
    /// terminating zero byte.
    pub fn read_qname(&mut self, outstr: &mut String) -> (r: Result<(), DnsError>)
        ensures
            final(self).buf == old(self).buf,
            match decode_name(old(self).buf@, old(self).pos as int) {
                Ok((ls, end)) => r is Ok && final(outstr)@ == old(outstr)@ + join_labels(ls)
                    && final(self).pos == end,
                Err(e) => r == Err::<(), DnsError>(e),
            },
    {
        let ghost b = self.buf@;
        let ghost start = self.pos as int;
        let ghost out0 = outstr@;
        let ghost mut acc: Seq<Seq<u8>> = Seq::empty();
        let ghost mut jump_end: int = 0;
        let mut pos = self.pos;
        let mut jumped = false;
        let mut first = true;
        let mut hops_left: usize = MAX_POINTER_HOPS;
        proof {
            match name_at(b, pos as int, hops_left as nat) {
                Ok((ls, e)) => {
                    assert(acc + ls =~= ls);
                },
                Err(_) => {},
            }
        }
        loop
            invariant
                self.buf == old(self).buf,
                b == old(self).buf@,
                start == old(self).pos,
                out0 == old(outstr)@,
                b.len() == BUFFER_SIZE,
                hops_left <= MAX_POINTER_HOPS,
                first == (acc.len() == 0),
                !jumped ==> self.pos == start,
                jumped ==> self.pos == jump_end,
                outstr@ == out0 + join_labels(acc),
                match name_at(b, pos as int, hops_left as nat) {
                    Ok((ls, e)) => decode_name(b, start) == Ok::<(Seq<Seq<u8>>, int), DnsError>(
                        (acc + ls, if jumped { jump_end } else { e }),
                    ),
                    Err(er) => decode_name(b, start) == Err::<(Seq<Seq<u8>>, int), DnsError>(er),
                },
            decreases hops_left, BUFFER_SIZE - pos,
        {
            let len = self.get(pos)?;
            if (len & 0xC0) == 0xC0 {
                let b2 = self.get(pos + 1)?;
                if hops_left == 0 {
                    return Err(DnsError::CompressionLoop);
                }
                if !jumped {
                    self.seek(pos + 2)?;
                    proof {
                        jump_end = pos + 2;
                    }
                }
                let offset = (((len & 0x3F) as usize) << 8) | (b2 as usize);
                assert(offset == pointer_target(len, b2)) by {
                    assert((((len & 0x3F) as usize) << 8) | (b2 as usize) == (len & 0x3F) as usize
                        * 0x100 + b2 as usize) by (bit_vector);
                };
                pos = offset;
                jumped = true;
                hops_left = hops_left - 1;
            } else {
                if len == 0 {
                    proof {
                        assert(acc + Seq::<Seq<u8>>::empty() =~= acc);
                    }
                    if !jumped {
                        self.seek(pos + 1)?;
                    }
                    return Ok(());
                }
                let label = self.get_range(pos + 1, len as usize)?;
                let ghost l = label@;
                let text = utf8_lossy(label);
                let lower = lowercase(text.as_str());
                if !first {
                    outstr.append(".");
                }
                outstr.append(lower.as_str());
                proof {
                    reveal_strlit(".");
                    let acc2 = acc.push(l);
                    assert(acc2.drop_last() =~= acc);
                    match name_at(b, pos + 1 + len, hops_left as nat) {
                        Ok((ls, e)) => {
                            assert(acc + (seq![l] + ls) =~= acc2 + ls);
                        },
                        Err(_) => {},
                    }
                    if acc.len() == 0 {
                        assert(acc2 =~= seq![l]);
                    }
                    acc = acc2;
                }
                first = false;
                pos = pos + 1 + len as usize;
            }
        }
    }
}

} // verus!
