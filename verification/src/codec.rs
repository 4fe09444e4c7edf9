//! Byte-level encoding of log records and wire frames.
//!
//! A record is one logged mutation.  Its encoding is self-delimiting:
//! a one-byte action tag, then the key and the value, each preceded by
//! its byte length as an 8-byte big-endian integer, with the text held
//! as UTF-8 bytes.  Sequential re-parse from byte 0 is therefore
//! unambiguous, which is what the replay of the log relies on.

use vstd::prelude::*;
use vstd::utf8::*;

use crate::Action;
use crate::Command;
use crate::CommandView;

verus! {

/// The four bytes of `n` in big-endian order.
pub open spec fn spec_u32_be(n: u32) -> Seq<u8> {
    seq![(n >> 24) as u8, (n >> 16) as u8, (n >> 8) as u8, n as u8]
}

/// The eight bytes of `n` in big-endian order.
pub open spec fn spec_u64_be(n: u64) -> Seq<u8> {
    seq![
        (n >> 56) as u8,
        (n >> 48) as u8,
        (n >> 40) as u8,
        (n >> 32) as u8,
        (n >> 24) as u8,
        (n >> 16) as u8,
        (n >> 8) as u8,
        n as u8,
    ]
}

/// The value read back from four big-endian bytes.
pub open spec fn spec_u32_of_be(b0: u8, b1: u8, b2: u8, b3: u8) -> u32 {
    ((b0 as u32) << 24) | ((b1 as u32) << 16) | ((b2 as u32) << 8) | (b3 as u32)
}

/// The value read back from eight big-endian bytes.
pub open spec fn spec_u64_of_be(
    b0: u8,
    b1: u8,
    b2: u8,
    b3: u8,
    b4: u8,
    b5: u8,
    b6: u8,
    b7: u8,
) -> u64 {
    ((b0 as u64) << 56) | ((b1 as u64) << 48) | ((b2 as u64) << 40) | ((b3 as u64) << 32) | (
    (b4 as u64) << 24) | ((b5 as u64) << 16) | ((b6 as u64) << 8) | (b7 as u64)
}

/// Reading back the four big-endian bytes of `n` yields `n` again.
pub proof fn lemma_u32_be_round_trip(n: u32)
    ensures
        spec_u32_of_be(
            spec_u32_be(n)[0],
            spec_u32_be(n)[1],
            spec_u32_be(n)[2],
            spec_u32_be(n)[3],
        ) == n,
{
    assert((((n >> 24) as u8 as u32) << 24) | (((n >> 16) as u8 as u32) << 16) | (((n
        >> 8) as u8 as u32) << 8) | (n as u8 as u32) == n) by (bit_vector);
}

/// Reading back the eight big-endian bytes of `n` yields `n` again.
pub proof fn lemma_u64_be_round_trip(n: u64)
    ensures
        spec_u64_of_be(
            spec_u64_be(n)[0],
            spec_u64_be(n)[1],
            spec_u64_be(n)[2],
            spec_u64_be(n)[3],
            spec_u64_be(n)[4],
            spec_u64_be(n)[5],
            spec_u64_be(n)[6],
            spec_u64_be(n)[7],
        ) == n,
{
    assert((((n >> 56) as u8 as u64) << 56) | (((n >> 48) as u8 as u64) << 48) | (((n
        >> 40) as u8 as u64) << 40) | (((n >> 32) as u8 as u64) << 32) | (((n
        >> 24) as u8 as u64) << 24) | (((n >> 16) as u8 as u64) << 16) | (((n
        >> 8) as u8 as u64) << 8) | (n as u8 as u64) == n) by (bit_vector);
}

/// Appends the four big-endian bytes of `n` to `out`.
pub fn push_u32_be(out: &mut Vec<u8>, n: u32)
    ensures
        final(out)@ == old(out)@ + spec_u32_be(n),
{
    out.push((n >> 24) as u8);
    out.push((n >> 16) as u8);
    out.push((n >> 8) as u8);
    out.push(n as u8);
    assert(out@ =~= old(out)@ + spec_u32_be(n));
}

/// Appends the eight big-endian bytes of `n` to `out`.
pub fn push_u64_be(out: &mut Vec<u8>, n: u64)
    ensures
        final(out)@ == old(out)@ + spec_u64_be(n),
{
    out.push((n >> 56) as u8);
    out.push((n >> 48) as u8);
    out.push((n >> 40) as u8);
    out.push((n >> 32) as u8);
    out.push((n >> 24) as u8);
    out.push((n >> 16) as u8);
    out.push((n >> 8) as u8);
    out.push(n as u8);
    assert(out@ =~= old(out)@ + spec_u64_be(n));
}

/// Reads a `u32` from four big-endian bytes.
pub fn read_u32_be(b0: u8, b1: u8, b2: u8, b3: u8) -> (n: u32)
    ensures
        n == spec_u32_of_be(b0, b1, b2, b3),
{
    ((b0 as u32) << 24) | ((b1 as u32) << 16) | ((b2 as u32) << 8) | (b3 as u32)
}

/// The one-byte tag that stands for an action in a record.
pub open spec fn action_tag(a: Action) -> u8 {
    match a {
        Action::Noop => 0,
        Action::Get => 1,
        Action::Put => 2,
        Action::Remove => 3,
    }
}

/// Whether a byte is the tag of some action.
pub open spec fn valid_tag(t: u8) -> bool {
    t == 0 || t == 1 || t == 2 || t == 3
}

/// The action that a tag byte stands for.
pub open spec fn tag_action(t: u8) -> Action
    recommends
        valid_tag(t),
{
    if t == 0 {
        Action::Noop
    } else if t == 1 {
        Action::Get
    } else if t == 2 {
        Action::Put
    } else {
        Action::Remove
    }
}

/// Whether a command's texts are small enough for their byte lengths
/// to be written as 8-byte integers.  Every `Command` held in memory
/// satisfies this, since a `String` never exceeds the address space.
pub open spec fn cmd_wf(c: CommandView) -> bool {
    encode_utf8(c.key).len() <= u64::MAX && encode_utf8(c.value).len() <= u64::MAX
}

/// The encoding of one record: an action tag, then the key and the
/// value, each preceded by its byte length in big-endian order.
pub open spec fn spec_encode_command(c: CommandView) -> Seq<u8> {
    let kb = encode_utf8(c.key);
    let vb = encode_utf8(c.value);
    seq![action_tag(c.action)] + spec_u64_be(kb.len() as u64) + kb + spec_u64_be(
        vb.len() as u64,
    ) + vb
}

/// The record parsed from the front of `s`, with the number of bytes
/// it occupies, or `None` when no valid record starts at byte 0.
pub open spec fn spec_parse_command(s: Seq<u8>) -> Option<(CommandView, int)> {
    if s.len() < 17 {
        Option::None
    } else {
        let tag = s[0];
        let klen = spec_u64_of_be(s[1], s[2], s[3], s[4], s[5], s[6], s[7], s[8]) as int;
        if !valid_tag(tag) || s.len() < 17 + klen {
            Option::None
        } else {
            let kb = s.subrange(9, 9 + klen);
            let vlen = spec_u64_of_be(
                s[9 + klen],
                s[10 + klen],
                s[11 + klen],
                s[12 + klen],
                s[13 + klen],
                s[14 + klen],
                s[15 + klen],
                s[16 + klen],
            ) as int;
            if s.len() < 17 + klen + vlen {
                Option::None
            } else {
                let vb = s.subrange(17 + klen, 17 + klen + vlen);
                if valid_utf8(kb) && valid_utf8(vb) {
                    Option::Some(
                        (
                            CommandView {
                                action: tag_action(tag),
                                key: decode_utf8(kb),
                                value: decode_utf8(vb),
                            },
                            17 + klen + vlen,
                        ),
                    )
                } else {
                    Option::None
                }
            }
        }
    }
}

/// Appends the encoding of `cmd` to `out`.
pub fn encode_command(cmd: &Command, out: &mut Vec<u8>)
    ensures
        final(out)@ == old(out)@ + spec_encode_command(cmd@),
        cmd_wf(cmd@),
{
    let tag: u8 = match cmd.action {
        Action::Noop => 0,
        Action::Get => 1,
        Action::Put => 2,
        Action::Remove => 3,
    };
    out.push(tag);
    let kb = cmd.key.as_str().as_bytes();
    let klen = kb.len();
    push_u64_be(out, klen as u64);
    out.extend_from_slice(kb);
    let vb = cmd.value.as_str().as_bytes();
    let vlen = vb.len();
    push_u64_be(out, vlen as u64);
    out.extend_from_slice(vb);
    assert(cmd_wf(cmd@));
    assert(out@ =~= old(out)@ + spec_encode_command(cmd@));
}

/// Reads a `u64` from eight big-endian bytes.
pub fn read_u64_be(b0: u8, b1: u8, b2: u8, b3: u8, b4: u8, b5: u8, b6: u8, b7: u8) -> (n: u64)
    ensures
        n == spec_u64_of_be(b0, b1, b2, b3, b4, b5, b6, b7),
{
    ((b0 as u64) << 56) | ((b1 as u64) << 48) | ((b2 as u64) << 40) | ((b3 as u64) << 32) | (
    (b4 as u64) << 24) | ((b5 as u64) << 16) | ((b6 as u64) << 8) | (b7 as u64)
}

/// Relies on `String::from_utf8`: it succeeds exactly on valid UTF-8
/// input and yields the characters that the bytes encode.
#[verifier::external_body]
pub(crate) fn bytes_to_string(v: Vec<u8>) -> (r: Option<String>)
    ensures
        r is Some <==> valid_utf8(v@),
        r matches Some(s) ==> s@ == decode_utf8(v@),
{
    match String::from_utf8(v) {
        Ok(s) => Some(s),
        Err(_) => None,
    }
}

/// Parsing the encoding of a well-formed command, whatever follows it,
/// yields that command back and consumes exactly its own bytes.
pub proof fn lemma_parse_encode_command(c: CommandView, rest: Seq<u8>)
    requires
        cmd_wf(c),
    ensures
        spec_parse_command(spec_encode_command(c) + rest) == Option::Some(
            (c, spec_encode_command(c).len() as int),
        ),
{
    broadcast use vstd::utf8::encode_utf8_valid_utf8, vstd::utf8::encode_utf8_decode_utf8;

    let kb = encode_utf8(c.key);
    let vb = encode_utf8(c.value);
    let klen = kb.len() as int;
    let vlen = vb.len() as int;
    let enc = spec_encode_command(c);
    let s = enc + rest;
    assert(enc.len() == 17 + klen + vlen);
    assert(s[0] == action_tag(c.action));
    let kbe = spec_u64_be(kb.len() as u64);
    let vbe = spec_u64_be(vb.len() as u64);
    assert forall|i: int| 0 <= i < 8 implies s[1 + i] == kbe[i] by {
        assert(enc[1 + i] == kbe[i]);
    }
    lemma_u64_be_round_trip(kb.len() as u64);
    assert(spec_u64_of_be(s[1], s[2], s[3], s[4], s[5], s[6], s[7], s[8]) == kb.len() as u64);
    assert(s.subrange(9, 9 + klen) =~= kb);
    assert forall|i: int| 0 <= i < 8 implies s[9 + klen + i] == vbe[i] by {
        assert(enc[9 + klen + i] == vbe[i]);
    }
    lemma_u64_be_round_trip(vb.len() as u64);
    assert(spec_u64_of_be(
        s[9 + klen],
        s[10 + klen],
        s[11 + klen],
        s[12 + klen],
        s[13 + klen],
        s[14 + klen],
        s[15 + klen],
        s[16 + klen],
    ) == vb.len() as u64);
    assert(s.subrange(17 + klen, 17 + klen + vlen) =~= vb);
    assert(valid_tag(action_tag(c.action)));
    assert(tag_action(action_tag(c.action)) == c.action);
    assert(spec_parse_command(s) == Option::Some((c, 17 + klen + vlen)));
}

/// A parse that succeeds is unchanged by bytes appended after it.
pub proof fn lemma_parse_command_extend(s: Seq<u8>, ext: Seq<u8>)
    requires
        spec_parse_command(s) is Some,
    ensures
        spec_parse_command(s + ext) == spec_parse_command(s),
{
    let t = s + ext;
    assert(forall|i: int| 0 <= i < s.len() ==> t[i] == s[i]);
    let klen = spec_u64_of_be(s[1], s[2], s[3], s[4], s[5], s[6], s[7], s[8]) as int;
    assert(s.len() >= 17 + klen);
    let vlen = spec_u64_of_be(
        s[9 + klen],
        s[10 + klen],
        s[11 + klen],
        s[12 + klen],
        s[13 + klen],
        s[14 + klen],
        s[15 + klen],
        s[16 + klen],
    ) as int;
    assert(s.len() >= 17 + klen + vlen);
    assert(t.subrange(9, 9 + klen) =~= s.subrange(9, 9 + klen));
    assert(t.subrange(17 + klen, 17 + klen + vlen) =~= s.subrange(17 + klen, 17 + klen + vlen));
}

/// Parses one record out of `log`, starting at byte `pos`.
///
/// Returns the record and the position of its first byte past the end,
/// or `None` when no valid record starts at `pos`.
pub fn parse_command_at(log: &Vec<u8>, pos: usize) -> (r: Option<(Command, usize)>)
    requires
        pos <= log@.len(),
    ensures
        match r {
            Some(p) => {
                &&& spec_parse_command(log@.subrange(pos as int, log@.len() as int))
                    == Option::Some((p.0@, p.1 - pos))
                &&& pos < p.1 <= log@.len()
            },
            None => spec_parse_command(log@.subrange(pos as int, log@.len() as int)) is None,
        },
{
    let ghost s = log@.subrange(pos as int, log@.len() as int);
    let n = log.len();
    if n - pos < 17 {
        return None;
    }
    let tag = log[pos];
    if tag > 3 {
        return None;
    }
    let klen64 = read_u64_be(
        log[pos + 1],
        log[pos + 2],
        log[pos + 3],
        log[pos + 4],
        log[pos + 5],
        log[pos + 6],
        log[pos + 7],
        log[pos + 8],
    );
    assert(spec_u64_of_be(s[1], s[2], s[3], s[4], s[5], s[6], s[7], s[8]) == klen64);
    if klen64 > (n - pos - 17) as u64 {
        return None;
    }
    let klen = klen64 as usize;
    let kv = vstd::slice::slice_to_vec(
        vstd::slice::slice_subrange(log.as_slice(), pos + 9, pos + 9 + klen),
    );
    assert(kv@ =~= s.subrange(9, 9 + klen as int));
    let vlen64 = read_u64_be(
        log[pos + 9 + klen],
        log[pos + 10 + klen],
        log[pos + 11 + klen],
        log[pos + 12 + klen],
        log[pos + 13 + klen],
        log[pos + 14 + klen],
        log[pos + 15 + klen],
        log[pos + 16 + klen],
    );
    assert(spec_u64_of_be(
        s[9 + klen],
        s[10 + klen],
        s[11 + klen],
        s[12 + klen],
        s[13 + klen],
        s[14 + klen],
        s[15 + klen],
        s[16 + klen],
    ) == vlen64);
    if vlen64 > (n - pos - 17 - klen) as u64 {
        return None;
    }
    let vlen = vlen64 as usize;
    let vv = vstd::slice::slice_to_vec(
        vstd::slice::slice_subrange(log.as_slice(), pos + 17 + klen, pos + 17 + klen + vlen),
    );
    assert(vv@ =~= s.subrange(17 + klen as int, 17 + klen as int + vlen as int));
    let key = match bytes_to_string(kv) {
        Some(k) => k,
        None => {
            return None;
        },
    };
    let value = match bytes_to_string(vv) {
        Some(v) => v,
        None => {
            return None;
        },
    };
    let action = if tag == 0 {
        Action::Noop
    } else if tag == 1 {
        Action::Get
    } else if tag == 2 {
        Action::Put
    } else {
        Action::Remove
    };
    Some((Command { action, key, value }, pos + 17 + klen + vlen))
}

} // verus!
