use crate::byte_packet::{BytePacketBuffer, BUF_LEN};
use crate::error::DecodeError;
use vstd::prelude::*;

verus! {

/// Most compression pointers one name may follow before the decode is
/// rejected; adversarial input can otherwise form pointer cycles.
pub const MAX_JUMPS: usize = 5;

/// How one raw label byte appears in the decoded name: ASCII letters are
/// normalized to lowercase, other ASCII bytes are kept as they are, and
/// non-ASCII bytes are replaced rather than rejected.
pub open spec fn label_char(b: u8) -> char {
    if 65 <= b && b <= 90 {
        ((b + 32) as u8) as char
    } else if b < 128 {
        b as char
    } else {
        '\u{FFFD}'
    }
}

/// The characters of one label, byte for byte.
pub open spec fn label_chars(bytes: Seq<u8>) -> Seq<char> {
    Seq::new(bytes.len(), |i: int| label_char(bytes[i]))
}

/// How much room is left between `pos` and the end of the buffer; a measure
/// for the decode's termination within one pointer-free run.
pub open spec fn room_after(buf_len: int, pos: int) -> int {
    if pos <= buf_len {
        buf_len - pos
    } else {
        0
    }
}

/// One state of the name decoder, unwound to the decode's outcome.
///
/// `pos` is the local position inside the pointer chase, `shared` the
/// position at which the caller will resume, `jumped` whether a pointer was
/// already followed (the resume position is then fixed), `jumps` how many
/// pointers were followed, and `acc` the labels gathered so far. The result
/// carries the finished name and the resume position. Termination: every
/// label moves `pos` towards the end of the buffer, and every pointer spends
/// one of the bounded jumps.
pub open spec fn qname_step(
    buf: Seq<u8>,
    pos: nat,
    shared: nat,
    jumped: bool,
    jumps: nat,
    acc: Seq<char>,
) -> Result<(Seq<char>, nat), DecodeError>
    decreases MAX_JUMPS + 1 - jumps, room_after(buf.len() as int, pos as int),
{
    if jumps > MAX_JUMPS {
        Err(DecodeError::CompressionLoopDetected)
    } else if pos >= buf.len() {
        Err(DecodeError::OutOfBounds)
    } else {
        let len = buf[pos as int];
        if len >= 192 {
            if pos + 2 > buf.len() {
                Err(DecodeError::OutOfBounds)
            } else {
                qname_step(
                    buf,
                    ((len - 192) * 256 + buf[pos as int + 1]) as nat,
                    if jumped {
                        shared
                    } else {
                        (pos + 2) as nat
                    },
                    true,
                    jumps + 1,
                    acc,
                )
            }
        } else if len == 0 {
            Ok(
                (
                    acc,
                    if jumped {
                        shared
                    } else {
                        (pos + 1) as nat
                    },
                ),
            )
        } else if pos + 1 + len > buf.len() {
            Err(DecodeError::OutOfBounds)
        } else {
            let label = label_chars(buf.subrange(pos as int + 1, pos as int + 1 + len));
            qname_step(
                buf,
                (pos + 1 + len) as nat,
                shared,
                jumped,
                jumps,
                if acc.len() == 0 {
                    label
                } else {
                    acc + seq!['.'] + label
                },
            )
        }
    }
}

/// The complete decode of the name that starts at `start`: the dotted,
/// lowercased labels, and the position at which the caller resumes reading
/// (just past the terminator, or past the first compression pointer).
pub open spec fn qname_decoded(buf: Seq<u8>, start: nat) -> Result<(Seq<char>, nat), DecodeError> {
    qname_step(buf, start, start, false, 0, Seq::empty())
}

/// The characters a decode gathers do not depend on the resume bookkeeping:
/// two decoder states at the same position with the same gathered labels
/// yield the same characters, as long as the first has spent at least as
/// many of the bounded jumps as the second. Only the resume position may
/// differ.
proof fn lemma_qname_step_chars(
    buf: Seq<u8>,
    pos: nat,
    sha: nat,
    shb: nat,
    ja: bool,
    jb: bool,
    na: nat,
    nb: nat,
    acc: Seq<char>,
    chars: Seq<char>,
    ea: nat,
)
    requires
        nb <= na,
        qname_step(buf, pos, sha, ja, na, acc) == Ok::<(Seq<char>, nat), DecodeError>((chars, ea)),
    ensures
        qname_step(buf, pos, shb, jb, nb, acc) matches Ok(d) && d.0 == chars,
    decreases MAX_JUMPS + 1 - na, room_after(buf.len() as int, pos as int),
{
    let len = buf[pos as int];
    if len >= 192 {
        lemma_qname_step_chars(
            buf,
            ((len - 192) * 256 + buf[pos as int + 1]) as nat,
            if ja {
                sha
            } else {
                (pos + 2) as nat
            },
            if jb {
                shb
            } else {
                (pos + 2) as nat
            },
            true,
            true,
            na + 1,
            nb + 1,
            acc,
            chars,
            ea,
        );
    } else if len == 0 {
    } else {
        let label = label_chars(buf.subrange(pos as int + 1, pos as int + 1 + len));
        lemma_qname_step_chars(
            buf,
            (pos + 1 + len) as nat,
            sha,
            shb,
            ja,
            jb,
            na,
            nb,
            if acc.len() == 0 {
                label
            } else {
                acc + seq!['.'] + label
            },
            chars,
            ea,
        );
    }
}

/// Once a jump was followed, the resume position is fixed: a decode that
/// succeeds hands back exactly the `shared` position it was carrying.
proof fn lemma_qname_step_jumped_resume(buf: Seq<u8>, pos: nat, sh: nat, jumps: nat, acc: Seq<char>)
    requires
        qname_step(buf, pos, sh, true, jumps, acc) is Ok,
    ensures
        qname_step(buf, pos, sh, true, jumps, acc) matches Ok(d) && d.1 == sh,
    decreases MAX_JUMPS + 1 - jumps, room_after(buf.len() as int, pos as int),
{
    let len = buf[pos as int];
    if len >= 192 {
        lemma_qname_step_jumped_resume(
            buf,
            ((len - 192) * 256 + buf[pos as int + 1]) as nat,
            sh,
            jumps + 1,
            acc,
        );
    } else if len == 0 {
    } else {
        let label = label_chars(buf.subrange(pos as int + 1, pos as int + 1 + len));
        lemma_qname_step_jumped_resume(
            buf,
            (pos + 1 + len) as nat,
            sh,
            jumps,
            if acc.len() == 0 {
                label
            } else {
                acc + seq!['.'] + label
            },
        );
    }
}

/// A name that begins with a compression pointer and decodes successfully
/// resolves to exactly the characters of the name at the pointer's target
/// decoded in place, and the caller resumes just past the two pointer bytes,
/// not past the jump target.
pub proof fn lemma_pointer_resolves_to_target(buf: Seq<u8>, p: nat, chars: Seq<char>, end: nat)
    requires
        p < buf.len(),
        buf[p as int] >= 192,
        qname_decoded(buf, p) == Ok::<(Seq<char>, nat), DecodeError>((chars, end)),
    ensures
        end == p + 2,
        qname_decoded(buf, ((buf[p as int] - 192) * 256 + buf[p as int + 1]) as nat) matches Ok(d)
            && d.0 == chars,
{
    let o = ((buf[p as int] - 192) * 256 + buf[p as int + 1]) as nat;
    lemma_qname_step_jumped_resume(buf, o, (p + 2) as nat, 1, Seq::empty());
    lemma_qname_step_chars(buf, o, (p + 2) as nat, o, true, false, 1, 0, Seq::empty(), chars, end);
}

/// Two compression pointers that point at each other are rejected within
/// the fixed jump bound, never chased forever: decoding from either end of
/// the cycle fails with the loop error.
pub proof fn lemma_pointer_cycle_detected(buf: Seq<u8>, x: nat, y: nat)
    requires
        x + 2 <= buf.len(),
        y + 2 <= buf.len(),
        buf[x as int] >= 192,
        buf[y as int] >= 192,
        (buf[x as int] - 192) * 256 + buf[x as int + 1] == y,
        (buf[y as int] - 192) * 256 + buf[y as int + 1] == x,
    ensures
        qname_decoded(buf, x) == Err::<(Seq<char>, nat), DecodeError>(
            DecodeError::CompressionLoopDetected,
        ),
{
    let sh = (x + 2) as nat;
    let none = Seq::<char>::empty();
    assert(qname_decoded(buf, x) == qname_step(buf, y, sh, true, 1, none));
    assert(qname_step(buf, y, sh, true, 1, none) == qname_step(buf, x, sh, true, 2, none));
    assert(qname_step(buf, x, sh, true, 2, none) == qname_step(buf, y, sh, true, 3, none));
    assert(qname_step(buf, y, sh, true, 3, none) == qname_step(buf, x, sh, true, 4, none));
    assert(qname_step(buf, x, sh, true, 4, none) == qname_step(buf, y, sh, true, 5, none));
    assert(qname_step(buf, y, sh, true, 5, none) == qname_step(buf, x, sh, true, 6, none));
    assert(qname_step(buf, x, sh, true, 6, none) == Err::<(Seq<char>, nat), DecodeError>(
        DecodeError::CompressionLoopDetected,
    ));
}

/// Relies on String::push: appends exactly the one given character.
#[verifier::external_body]
fn push_char(s: &mut String, c: char)
    ensures
        final(s)@ == old(s)@.push(c),
{
    s.push(c);
}

impl BytePacketBuffer {
    /// Decodes the length-prefixed, possibly pointer-compressed name that
    /// starts under the cursor and appends it to `outstr` as dot-joined,
    /// lowercased labels.
    ///
    /// The chase through compression pointers runs on a local position; the
    /// buffer's own cursor ends just past the first occurrence of the name
    /// (past the terminator, or past the 2-byte pointer that referenced it),
    /// however many jumps were followed. On failure nothing is promised of
    /// the cursor or of `outstr` beyond the buffer's bytes staying intact.
    pub fn read_qname(&mut self, outstr: &mut String) -> (r: Result<(), DecodeError>)
        requires
            old(self).wf(),
        ensures
            final(self).buf == old(self).buf,
            final(self).wf(),
            match r {
                Ok(_) => qname_decoded(old(self).buf@, old(self).position as nat) matches Ok(d)
                    && final(outstr)@ == old(outstr)@ + d.0 && final(self).position == d.1,
                Err(e) => qname_decoded(old(self).buf@, old(self).position as nat) == Err::<
                    (Seq<char>, nat),
                    DecodeError,
                >(e),
            },
    {
        let ghost buf0 = self.buf@;
        let ghost start = self.position as nat;
        let ghost out0 = outstr@;
        let ghost target = qname_decoded(buf0, start);
        let ghost mut acc: Seq<char> = Seq::empty();

        let mut pos: usize = self.pos();
        let mut jumped: bool = false;
        let mut jumps_performed: usize = 0;
        let mut first_label: bool = true;

        proof {
            assert(outstr@ =~= out0 + acc);
        }
        loop
            invariant_except_break
                qname_step(
                    buf0,
                    pos as nat,
                    self.position as nat,
                    jumped,
                    jumps_performed as nat,
                    acc,
                ) == target,
            invariant
                buf0 == old(self).buf@,
                start == old(self).position as nat,
                out0 == old(outstr)@,
                target == qname_decoded(buf0, start),
                self.wf(),
                self.buf@ == buf0,
                pos <= 0x3FFF,
                jumps_performed <= MAX_JUMPS + 1,
                outstr@ == out0 + acc,
                first_label <==> acc.len() == 0,
            ensures
                self.wf(),
                self.buf@ == buf0,
                pos <= BUF_LEN,
                outstr@ == out0 + acc,
                target == Ok::<(Seq<char>, nat), DecodeError>(
                    (
                        acc,
                        if jumped {
                            self.position as nat
                        } else {
                            pos as nat
                        },
                    ),
                ),
            decreases MAX_JUMPS + 1 - jumps_performed, room_after(BUF_LEN as int, pos as int),
        {
            let ghost acc0 = acc;
            if jumps_performed > MAX_JUMPS {
                return Err(DecodeError::CompressionLoopDetected);
            }
            let len = match self.get(pos) {
                Ok(b) => b,
                Err(e) => {
                    return Err(e);
                },
            };
            assert((len & 0xC0) == 0xC0 <==> len >= 192) by (bit_vector);

            if (len & 0xC0) == 0xC0 {
                // A compression pointer. The first one fixes the caller's
                // resume position just past these two bytes; later ones must
                // not move the shared cursor again.
                if !jumped {
                    match self.seek(pos + 2) {
                        Ok(_) => {},
                        Err(e) => {
                            return Err(e);
                        },
                    };
                }
                let b2 = match self.get(pos + 1) {
                    Ok(b) => b,
                    Err(e) => {
                        return Err(e);
                    },
                };
                pos = ((len as usize) - 192) * 256 + (b2 as usize);
                jumped = true;
                jumps_performed = jumps_performed + 1;
            } else {
                // An ordinary label of `len` bytes, terminated by an empty
                // label of length zero.
                pos = pos + 1;
                if len == 0 {
                    break;
                }
                let llen = len as usize;
                if llen > BUF_LEN || pos > BUF_LEN - llen {
                    return Err(DecodeError::OutOfBounds);
                }
                if first_label {
                    first_label = false;
                } else {
                    push_char(outstr, '.');
                    proof {
                        acc = acc.push('.');
                        assert(acc =~= acc0 + seq!['.']);
                        assert(outstr@ =~= out0 + acc);
                    }
                }
                let ghost acc_with_dot = acc;
                let mut i: usize = 0;
                while i < llen
                    invariant
                        i <= llen,
                        pos + llen <= BUF_LEN,
                        self.wf(),
                        self.buf@ == buf0,
                        outstr@ == out0 + acc,
                        acc == acc_with_dot + label_chars(
                            buf0.subrange(pos as int, pos + i as int),
                        ),
                    decreases llen - i,
                {
                    let b = self.buf[pos + i];
                    let c: char = if 65 <= b && b <= 90 {
                        (b + 32) as char
                    } else if b < 128 {
                        b as char
                    } else {
                        '\u{FFFD}'
                    };
                    push_char(outstr, c);
                    proof {
                        acc = acc.push(c);
                        assert(outstr@ =~= out0 + acc);
                        assert(acc =~= acc_with_dot + label_chars(
                            buf0.subrange(pos as int, pos + (i + 1) as int),
                        ));
                    }
                    i = i + 1;
                }
                proof {
                    let lab = label_chars(buf0.subrange(pos as int, pos + llen as int));
                    if acc0.len() == 0 {
                        assert(acc =~= lab);
                    } else {
                        assert(acc =~= acc0 + seq!['.'] + lab);
                    }
                }
                pos = pos + llen;
            }
        }
        if !jumped {
            match self.seek(pos) {
                Ok(_) => {},
                Err(e) => {
                    return Err(e);
                },
            };
        }
        Ok(())
    }
}

} // verus!
