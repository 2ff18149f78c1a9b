//! Oracle quorum verification.
//!
//! A resolution request is accompanied by a bundle of instructions taken from
//! the same transaction. Instructions addressed to the signature-verification
//! program carry, in a fixed binary layout, a list of (public key, message)
//! pairs whose signatures the runtime has already checked. A configured
//! oracle identity has voted for an outcome when some such pair names it
//! together with the exact canonical resolution message. Resolution requires
//! votes from a threshold of distinct configured identities.
//!
//! Record layout: byte 0 holds the signature count; for signature `s`, a
//! 14-byte descriptor starts at `2 + 14*s`, with the little-endian public-key
//! offset at descriptor bytes 6..8, the message offset at bytes 10..12 and
//! the message length at bytes 12..14, each relative to the record's start.
//! Malformed or truncated entries are skipped, never fatal by themselves.

use vstd::prelude::*;

use crate::errors::ErrorCode;
use crate::state::{Outcome, Pubkey, ORACLE_COUNT};

verus! {

/// One instruction of the surrounding transaction, as handed to the verifier:
/// the program it addresses and its raw payload.
#[derive(Clone, Debug, PartialEq, Eq)]
pub struct Instruction {
    pub program_id: Pubkey,
    pub data: Vec<u8>,
}

/// The identity of the signature-verification program whose instructions
/// carry checked (public key, message) pairs.
pub open spec fn ed25519_id_spec() -> Seq<u8> {
    Seq::new(
        32,
        |i: int|
            if i == 0 {
                0xed
            } else if i == 1 {
                0x25
            } else if i == 2 {
                0x51
            } else if i == 3 {
                0x09
            } else {
                0
            },
    )
}

/// Checks whether a program identity is the signature-verification program.
fn is_ed25519_program(k: &Pubkey) -> (r: bool)
    ensures
        r == (k@ == ed25519_id_spec()),
{
    if k[0] != 0xed || k[1] != 0x25 || k[2] != 0x51 || k[3] != 0x09 {
        return false;
    }
    let mut i: usize = 4;
    while i < 32
        invariant
            4 <= i <= 32,
            k@[0] == 0xed && k@[1] == 0x25 && k@[2] == 0x51 && k@[3] == 0x09,
            forall|j: int| 4 <= j < i ==> k@[j] == 0,
        decreases 32 - i,
    {
        if k[i] != 0 {
            return false;
        }
        i = i + 1;
    }
    proof {
        assert(k@ =~= ed25519_id_spec());
    }
    true
}

/// The number a pair of bytes encodes, little endian.
pub open spec fn u16_le_spec(lo: u8, hi: u8) -> int {
    lo + 256 * hi
}

/// Reads a little-endian 16-bit number from two bytes.
fn u16_le(lo: u8, hi: u8) -> (r: u16)
    ensures
        r == u16_le_spec(lo, hi),
{
    lo as u16 + 256 * (hi as u16)
}

/// The byte a claimed outcome contributes to the canonical message.
pub open spec fn outcome_byte(o: Outcome) -> u8 {
    match o {
        Outcome::CallerWins => 1,
        Outcome::CallerLoses => 0,
    }
}

/// The little-endian bytes of a 64-bit value, least significant first.
pub open spec fn le64_spec(v: u64) -> Seq<u8> {
    seq![
        (v % 256) as u8,
        ((v / 256) % 256) as u8,
        ((v / 65536) % 256) as u8,
        ((v / 16777216) % 256) as u8,
        ((v / 4294967296) % 256) as u8,
        ((v / 1099511627776) % 256) as u8,
        ((v / 281474976710656) % 256) as u8,
        ((v / 72057594037927936) % 256) as u8,
    ]
}

/// The canonical message an oracle must sign to vote: the call's identity,
/// one outcome byte, and the timestamp as eight little-endian bytes.
pub open spec fn resolution_message_spec(call_id: Seq<u8>, outcome: Outcome, timestamp: i64) -> Seq<
    u8,
> {
    call_id + seq![outcome_byte(outcome)] + le64_spec(timestamp as u64)
}

/// Builds the canonical resolution message for a call, outcome and time.
pub fn resolution_message(call_id: &Pubkey, outcome: Outcome, timestamp: i64) -> (r: Vec<u8>)
    requires
        timestamp >= 0,
    ensures
        r@ == resolution_message_spec(call_id@, outcome, timestamp),
{
    let mut out: Vec<u8> = Vec::new();
    let mut i: usize = 0;
    while i < 32
        invariant
            0 <= i <= 32,
            out@ =~= call_id@.subrange(0, i as int),
        decreases 32 - i,
    {
        out.push(call_id[i]);
        i = i + 1;
    }
    let ob: u8 = match outcome {
        Outcome::CallerWins => 1,
        Outcome::CallerLoses => 0,
    };
    out.push(ob);
    let v: u64 = timestamp as u64;
    out.push((v % 256) as u8);
    out.push(((v / 256) % 256) as u8);
    out.push(((v / 65536) % 256) as u8);
    out.push(((v / 16777216) % 256) as u8);
    out.push(((v / 4294967296) % 256) as u8);
    out.push(((v / 1099511627776) % 256) as u8);
    out.push(((v / 281474976710656) % 256) as u8);
    out.push(((v / 72057594037927936) % 256) as u8);
    proof {
        assert(out@ =~= resolution_message_spec(call_id@, outcome, timestamp));
    }
    out
}

/// Whether the descriptor of signature `s` lies inside the record.
pub open spec fn slot_bounds_ok(data: Seq<u8>, s: int) -> bool {
    2 + 14 * s + 14 <= data.len()
}

/// The public-key offset of signature `s`.
pub open spec fn slot_pk_off(data: Seq<u8>, s: int) -> int {
    u16_le_spec(data[2 + 14 * s + 6], data[2 + 14 * s + 7])
}

/// The message offset of signature `s`.
pub open spec fn slot_msg_off(data: Seq<u8>, s: int) -> int {
    u16_le_spec(data[2 + 14 * s + 10], data[2 + 14 * s + 11])
}

/// The message length of signature `s`.
pub open spec fn slot_msg_len(data: Seq<u8>, s: int) -> int {
    u16_le_spec(data[2 + 14 * s + 12], data[2 + 14 * s + 13])
}

/// Whether signature `s` of a record is a well-formed vote by `key` over
/// exactly `msg`: every referenced range lies inside the record, the public
/// key bytes equal `key`, and the message bytes equal `msg`.
pub open spec fn slot_votes_for(data: Seq<u8>, s: int, key: Seq<u8>, msg: Seq<u8>) -> bool {
    &&& slot_bounds_ok(data, s)
    &&& slot_pk_off(data, s) + 32 <= data.len()
    &&& data.subrange(slot_pk_off(data, s), slot_pk_off(data, s) + 32) == key
    &&& slot_msg_off(data, s) + slot_msg_len(data, s) <= data.len()
    &&& data.subrange(slot_msg_off(data, s), slot_msg_off(data, s) + slot_msg_len(data, s)) == msg
}

/// Whether some signature with index below `s` is a vote by `key` over `msg`.
pub open spec fn slot_vote_in_prefix(data: Seq<u8>, s: int, key: Seq<u8>, msg: Seq<u8>) -> bool {
    exists|s0: int| 0 <= s0 < s && slot_votes_for(data, s0, key, msg)
}

/// Whether one instruction carries a vote by `key` over `msg`: it addresses
/// the signature-verification program and one of its declared signatures is
/// such a vote.
pub open spec fn instr_votes_for(ix: Instruction, key: Seq<u8>, msg: Seq<u8>) -> bool {
    &&& ix.program_id@ == ed25519_id_spec()
    &&& ix.data@.len() >= 2
    &&& slot_vote_in_prefix(ix.data@, ix.data@[0] as int, key, msg)
}

/// Whether some instruction with index below `upto` carries a vote by `key`.
pub open spec fn vote_in_prefix(bundle: Seq<Instruction>, upto: int, key: Seq<u8>, msg: Seq<u8>) -> bool {
    exists|i: int| 0 <= i < upto && instr_votes_for(bundle[i], key, msg)
}

/// Whether the bundle carries a vote by `key` over `msg`.
pub open spec fn has_valid_vote(bundle: Seq<Instruction>, key: Seq<u8>, msg: Seq<u8>) -> bool {
    vote_in_prefix(bundle, bundle.len() as int, key, msg)
}

/// How many of the configured oracle identities cast a valid vote over
/// `msg`. Each identity counts at most once, however many signatures it
/// attached.
pub open spec fn quorum_count(bundle: Seq<Instruction>, oracles: Seq<Pubkey>, msg: Seq<u8>) -> int
    decreases oracles.len(),
{
    if oracles.len() == 0 {
        0
    } else {
        quorum_count(bundle, oracles.drop_last(), msg) + if has_valid_vote(
            bundle,
            oracles.last()@,
            msg,
        ) {
            1int
        } else {
            0int
        }
    }
}

/// Scanning one more instruction finds a vote exactly when one was already
/// found or the new instruction carries one.
proof fn lemma_vote_prefix_extend(bundle: Seq<Instruction>, upto: int, key: Seq<u8>, msg: Seq<u8>)
    requires
        0 <= upto < bundle.len(),
    ensures
        vote_in_prefix(bundle, upto + 1, key, msg) == (vote_in_prefix(bundle, upto, key, msg)
            || instr_votes_for(bundle[upto], key, msg)),
{
    if vote_in_prefix(bundle, upto + 1, key, msg) {
        let i = choose|i: int| 0 <= i < upto + 1 && instr_votes_for(bundle[i], key, msg);
        if i < upto {
            assert(vote_in_prefix(bundle, upto, key, msg));
        }
    }
    if vote_in_prefix(bundle, upto, key, msg) {
        let i = choose|i: int| 0 <= i < upto && instr_votes_for(bundle[i], key, msg);
        assert(0 <= i < upto + 1 && instr_votes_for(bundle[i], key, msg));
    }
    if instr_votes_for(bundle[upto], key, msg) {
        assert(0 <= upto < upto + 1 && instr_votes_for(bundle[upto], key, msg));
    }
}

/// Scanning one more signature of a record finds a vote exactly when one was
/// already found or the new signature is one.
proof fn lemma_slot_prefix_extend(data: Seq<u8>, s: int, key: Seq<u8>, msg: Seq<u8>)
    requires
        0 <= s,
    ensures
        slot_vote_in_prefix(data, s + 1, key, msg) == (slot_vote_in_prefix(data, s, key, msg)
            || slot_votes_for(data, s, key, msg)),
{
    if slot_vote_in_prefix(data, s + 1, key, msg) {
        let s0 = choose|s0: int| 0 <= s0 < s + 1 && slot_votes_for(data, s0, key, msg);
        if s0 < s {
            assert(slot_vote_in_prefix(data, s, key, msg));
        }
    }
    if slot_vote_in_prefix(data, s, key, msg) {
        let s0 = choose|s0: int| 0 <= s0 < s && slot_votes_for(data, s0, key, msg);
        assert(0 <= s0 < s + 1 && slot_votes_for(data, s0, key, msg));
    }
    if slot_votes_for(data, s, key, msg) {
        assert(0 <= s < s + 1 && slot_votes_for(data, s, key, msg));
    }
}

/// Checks whether 32 bytes of the record starting at `off` equal `key`.
fn range_matches_key(data: &Vec<u8>, off: usize, key: &Pubkey) -> (r: bool)
    requires
        off + 32 <= data.len(),
    ensures
        r == (data@.subrange(off as int, off as int + 32) == key@),
{
    let mut j: usize = 0;
    while j < 32
        invariant
            0 <= j <= 32,
            off + 32 <= data.len(),
            forall|jj: int| 0 <= jj < j ==> data@[off + jj] == key@[jj],
        decreases 32 - j,
    {
        if data[off + j] != key[j] {
            proof {
                assert(data@.subrange(off as int, off as int + 32)[j as int] != key@[j as int]);
            }
            return false;
        }
        j = j + 1;
    }
    proof {
        assert(data@.subrange(off as int, off as int + 32) =~= key@);
    }
    true
}

/// Checks whether `len` bytes of the record starting at `off` equal the
/// expected message exactly, length included.
fn range_matches_msg(data: &Vec<u8>, off: usize, len: usize, expected: &Vec<u8>) -> (r: bool)
    requires
        off + len <= data.len(),
    ensures
        r == (data@.subrange(off as int, off as int + len as int) == expected@),
{
    if len != expected.len() {
        proof {
            assert(data@.subrange(off as int, off as int + len as int).len() != expected@.len());
        }
        return false;
    }
    let mut j: usize = 0;
    while j < len
        invariant
            0 <= j <= len,
            off + len <= data.len(),
            len == expected.len(),
            forall|jj: int| 0 <= jj < j ==> data@[off + jj] == expected@[jj],
        decreases len - j,
    {
        if data[off + j] != expected[j] {
            proof {
                assert(data@.subrange(off as int, off as int + len as int)[j as int]
                    != expected@[j as int]);
            }
            return false;
        }
        j = j + 1;
    }
    proof {
        assert(data@.subrange(off as int, off as int + len as int) =~= expected@);
    }
    true
}

/// Decides whether signature `s` of a record is a valid vote by `key` over
/// the expected message, mirroring the layout checks one by one.
#[verifier::loop_isolation(false)]
fn slot_vote(data: &Vec<u8>, s: usize, key: &Pubkey, expected: &Vec<u8>) -> (r: bool)
    requires
        s <= 255,
    ensures
        r == slot_votes_for(data@, s as int, key@, expected@),
{
    let data_len = data.len();
    let ob = 2 + 14 * s;
    if ob + 14 > data_len {
        return false;
    }
    let pko = u16_le(data[ob + 6], data[ob + 7]) as usize;
    if pko + 32 > data_len {
        return false;
    }
    if !range_matches_key(data, pko, key) {
        return false;
    }
    let mo = u16_le(data[ob + 10], data[ob + 11]) as usize;
    let ml = u16_le(data[ob + 12], data[ob + 13]) as usize;
    if mo + ml > data_len {
        return false;
    }
    range_matches_msg(data, mo, ml, expected)
}

/// Examines signature `s` of one record and marks every configured oracle
/// for which it is a valid vote over the expected message.
#[verifier::loop_isolation(false)]
fn scan_slot(
    data: &Vec<u8>,
    s: usize,
    authorized_oracles: &Vec<Pubkey>,
    expected: &Vec<u8>,
    voted: &mut Vec<bool>,
)
    requires
        authorized_oracles.len() == ORACLE_COUNT,
        old(voted).len() == ORACLE_COUNT,
        s <= 255,
    ensures
        final(voted).len() == ORACLE_COUNT,
        forall|k: int|
            0 <= k < ORACLE_COUNT ==> final(voted)@[k] == (old(voted)@[k] || slot_votes_for(
                data@,
                s as int,
                authorized_oracles@[k]@,
                expected@,
            )),
{
    if slot_vote(data, s, &authorized_oracles[0], expected) {
        voted.set(0, true);
    }
    if slot_vote(data, s, &authorized_oracles[1], expected) {
        voted.set(1, true);
    }
    if slot_vote(data, s, &authorized_oracles[2], expected) {
        voted.set(2, true);
    }
}

/// The marking state after scanning the first `s` signatures of a record:
/// each oracle's flag is its value before the record plus any vote found so
/// far in the record.
spec fn marks_through(
    voted: Seq<bool>,
    base: Seq<bool>,
    data: Seq<u8>,
    s: int,
    oracles: Seq<Pubkey>,
    msg: Seq<u8>,
) -> bool {
    &&& voted.len() == 3
    &&& forall|k: int|
        0 <= k < 3 ==> voted[k] == (base[k] || slot_vote_in_prefix(data, s, oracles[k]@, msg))
}

/// Examines one instruction of the bundle and marks every configured oracle
/// for which it carries a valid vote over the expected message.
#[verifier::loop_isolation(false)]
fn scan_instruction(
    ix: &Instruction,
    authorized_oracles: &Vec<Pubkey>,
    expected: &Vec<u8>,
    voted: &mut Vec<bool>,
)
    requires
        authorized_oracles.len() == ORACLE_COUNT,
        old(voted).len() == ORACLE_COUNT,
    ensures
        final(voted).len() == ORACLE_COUNT,
        forall|k: int|
            0 <= k < ORACLE_COUNT ==> final(voted)@[k] == (old(voted)@[k] || instr_votes_for(
                *ix,
                authorized_oracles@[k]@,
                expected@,
            )),
{
    if !is_ed25519_program(&ix.program_id) || ix.data.len() < 2 {
        return ;
    }
    let data = &ix.data;
    let nsig = data[0] as usize;
    let ghost voted_at_ix = voted@;
    let mut s: usize = 0;
    while s < nsig
        invariant
            0 <= s <= nsig,
            marks_through(voted@, voted_at_ix, data@, s as int, authorized_oracles@, expected@),
        decreases nsig - s,
    {
        let ghost voted_before = voted@;
        scan_slot(data, s, authorized_oracles, expected, voted);
        proof {
            assert forall|k: int| 0 <= k < 3 implies voted@[k] == (voted_at_ix[k]
                || slot_vote_in_prefix(
                data@,
                s as int + 1,
                authorized_oracles@[k]@,
                expected@,
            )) by {
                assert(voted_before[k] == (voted_at_ix[k] || slot_vote_in_prefix(
                    data@,
                    s as int,
                    authorized_oracles@[k]@,
                    expected@,
                )));
                assert(voted@[k] == (voted_before[k] || slot_votes_for(
                    data@,
                    s as int,
                    authorized_oracles@[k]@,
                    expected@,
                )));
                lemma_slot_prefix_extend(data@, s as int, authorized_oracles@[k]@, expected@);
            }
            assert(marks_through(
                voted@,
                voted_at_ix,
                data@,
                s as int + 1,
                authorized_oracles@,
                expected@,
            ));
        }
        s = s + 1;
    }
    proof {
        assert(forall|k: int|
            0 <= k < 3 ==> voted@[k] == (voted_at_ix[k] || slot_vote_in_prefix(
                data@,
                nsig as int,
                authorized_oracles@[k]@,
                expected@,
            )));
    }
}

/// Scans the attestation bundle and succeeds exactly when at least
/// `required` of the configured oracle identities cast a valid vote over the
/// canonical message for this call, outcome and timestamp. An identity that
/// signed several times still counts once; malformed entries are skipped.
#[verifier::loop_isolation(false)]
pub fn verify_oracle_signatures(
    bundle: &Vec<Instruction>,
    authorized_oracles: &Vec<Pubkey>,
    required: usize,
    call_id: &Pubkey,
    outcome: Outcome,
    timestamp: i64,
) -> (r: Result<(), ErrorCode>)
    requires
        authorized_oracles.len() == ORACLE_COUNT,
        timestamp >= 0,
    ensures
        r is Ok <==> quorum_count(
            bundle@,
            authorized_oracles@,
            resolution_message_spec(call_id@, outcome, timestamp),
        ) >= required,
        r is Err ==> r == Err::<(), ErrorCode>(ErrorCode::InsufficientOracleSignatures),
{
    let expected = resolution_message(call_id, outcome, timestamp);
    let ghost msg = expected@;
    let mut voted: Vec<bool> = Vec::new();
    voted.push(false);
    voted.push(false);
    voted.push(false);

    let mut ii: usize = 0;
    while ii < bundle.len()
        invariant
            0 <= ii <= bundle.len(),
            voted.len() == 3,
            forall|k: int|
                0 <= k < 3 ==> voted@[k] == vote_in_prefix(
                    bundle@,
                    ii as int,
                    authorized_oracles@[k]@,
                    msg,
                ),
        decreases bundle.len() - ii,
    {
        let ghost voted_before = voted@;
        scan_instruction(&bundle[ii], authorized_oracles, &expected, &mut voted);
        proof {
            assert forall|k: int| 0 <= k < 3 implies voted@[k] == vote_in_prefix(
                bundle@,
                ii as int + 1,
                authorized_oracles@[k]@,
                msg,
            ) by {
                assert(voted_before[k] == vote_in_prefix(
                    bundle@,
                    ii as int,
                    authorized_oracles@[k]@,
                    msg,
                ));
                assert(voted@[k] == (voted_before[k] || instr_votes_for(
                    bundle@[ii as int],
                    authorized_oracles@[k]@,
                    msg,
                )));
                lemma_vote_prefix_extend(bundle@, ii as int, authorized_oracles@[k]@, msg);
            }
        }
        ii = ii + 1;
    }

    let mut count: usize = 0;
    let mut k: usize = 0;
    while k < 3
        invariant
            0 <= k <= 3,
            count <= k,
            count == quorum_count(bundle@, authorized_oracles@.subrange(0, k as int), msg),
        decreases 3 - k,
    {
        proof {
            let pre = authorized_oracles@.subrange(0, k as int + 1);
            assert(pre.drop_last() =~= authorized_oracles@.subrange(0, k as int));
            assert(pre.last() == authorized_oracles@[k as int]);
        }
        if voted[k] {
            count = count + 1;
        }
        k = k + 1;
    }
    proof {
        assert(authorized_oracles@.subrange(0, 3) =~= authorized_oracles@);
    }
    if count >= required {
        Ok(())
    } else {
        Err(ErrorCode::InsufficientOracleSignatures)
    }
}

} // verus!
