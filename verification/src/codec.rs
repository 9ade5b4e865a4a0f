//! The canonical binary encoding of every wire payload.
//!
//! Every payload type has exactly one encoding: fixed-width little-endian
//! integers, a one-byte discriminant per enum, and length-prefixed lists.
//! Decoders are exact inverses: a decoder only ever returns a value whose
//! canonical encoding is precisely the bytes it consumed, and decoding an
//! encoded value yields it back unchanged.

use vstd::prelude::*;

use crate::combat_event::CombatEvent;
use crate::combat_event::CombatEventView;
use crate::aspect::Aspect;
use crate::dot::DOT;
use crate::gender::Gender;
use crate::item::ConsumableIdentifier;
use crate::item::Item;
use crate::item::SkillIdentifier;
use crate::lifetime::Lifetime;
use crate::modifier::Modifier;
use crate::modifier::ModifierExpression;
use crate::target::Target;

verus! {

// --- primitive encodings ---------------------------------------------------

pub open spec fn enc_u8(v: u8) -> Seq<u8> {
    seq![v]
}

pub open spec fn enc_u32(v: u32) -> Seq<u8> {
    seq![
        (v & 0xff) as u8,
        ((v >> 8) & 0xff) as u8,
        ((v >> 16) & 0xff) as u8,
        ((v >> 24) & 0xff) as u8,
    ]
}

pub open spec fn enc_u64(v: u64) -> Seq<u8> {
    seq![
        (v & 0xff) as u8,
        ((v >> 8) & 0xff) as u8,
        ((v >> 16) & 0xff) as u8,
        ((v >> 24) & 0xff) as u8,
        ((v >> 32) & 0xff) as u8,
        ((v >> 40) & 0xff) as u8,
        ((v >> 48) & 0xff) as u8,
        ((v >> 56) & 0xff) as u8,
    ]
}

pub open spec fn u32_from_le(b0: u8, b1: u8, b2: u8, b3: u8) -> u32 {
    (b0 as u32) | ((b1 as u32) << 8) | ((b2 as u32) << 16) | ((b3 as u32) << 24)
}

pub open spec fn u64_from_le(
    b0: u8,
    b1: u8,
    b2: u8,
    b3: u8,
    b4: u8,
    b5: u8,
    b6: u8,
    b7: u8,
) -> u64 {
    (b0 as u64) | ((b1 as u64) << 8) | ((b2 as u64) << 16) | ((b3 as u64) << 24) | ((b4 as u64)
        << 32) | ((b5 as u64) << 40) | ((b6 as u64) << 48) | ((b7 as u64) << 56)
}

proof fn lemma_u32_le_inverse(b0: u8, b1: u8, b2: u8, b3: u8)
    ensures
        (u32_from_le(b0, b1, b2, b3) & 0xff) as u8 == b0,
        ((u32_from_le(b0, b1, b2, b3) >> 8) & 0xff) as u8 == b1,
        ((u32_from_le(b0, b1, b2, b3) >> 16) & 0xff) as u8 == b2,
        ((u32_from_le(b0, b1, b2, b3) >> 24) & 0xff) as u8 == b3,
{
    let v = (b0 as u32) | ((b1 as u32) << 8) | ((b2 as u32) << 16) | ((b3 as u32) << 24);
    assert((v & 0xff) as u8 == b0 && ((v >> 8) & 0xff) as u8 == b1 && ((v >> 16) & 0xff) as u8
        == b2 && ((v >> 24) & 0xff) as u8 == b3) by (bit_vector)
        requires
            v == (b0 as u32) | ((b1 as u32) << 8) | ((b2 as u32) << 16) | ((b3 as u32) << 24),
    {
    }
}

proof fn lemma_u64_le_round_trip(v: u64)
    ensures
        u64_from_le(
            (v & 0xff) as u8,
            ((v >> 8) & 0xff) as u8,
            ((v >> 16) & 0xff) as u8,
            ((v >> 24) & 0xff) as u8,
            ((v >> 32) & 0xff) as u8,
            ((v >> 40) & 0xff) as u8,
            ((v >> 48) & 0xff) as u8,
            ((v >> 56) & 0xff) as u8,
        ) == v,
{
    assert((((v & 0xff) as u8) as u64) | (((((v >> 8) & 0xff) as u8) as u64) << 8) | (((((v >> 16)
        & 0xff) as u8) as u64) << 16) | (((((v >> 24) & 0xff) as u8) as u64) << 24) | (((((v >> 32)
        & 0xff) as u8) as u64) << 32) | (((((v >> 40) & 0xff) as u8) as u64) << 40) | (((((v >> 48)
        & 0xff) as u8) as u64) << 48) | (((((v >> 56) & 0xff) as u8) as u64) << 56) == v)
        by (bit_vector);
}

proof fn lemma_u64_le_inverse(b0: u8, b1: u8, b2: u8, b3: u8, b4: u8, b5: u8, b6: u8, b7: u8)
    ensures
        (u64_from_le(b0, b1, b2, b3, b4, b5, b6, b7) & 0xff) as u8 == b0,
        ((u64_from_le(b0, b1, b2, b3, b4, b5, b6, b7) >> 8) & 0xff) as u8 == b1,
        ((u64_from_le(b0, b1, b2, b3, b4, b5, b6, b7) >> 16) & 0xff) as u8 == b2,
        ((u64_from_le(b0, b1, b2, b3, b4, b5, b6, b7) >> 24) & 0xff) as u8 == b3,
        ((u64_from_le(b0, b1, b2, b3, b4, b5, b6, b7) >> 32) & 0xff) as u8 == b4,
        ((u64_from_le(b0, b1, b2, b3, b4, b5, b6, b7) >> 40) & 0xff) as u8 == b5,
        ((u64_from_le(b0, b1, b2, b3, b4, b5, b6, b7) >> 48) & 0xff) as u8 == b6,
        ((u64_from_le(b0, b1, b2, b3, b4, b5, b6, b7) >> 56) & 0xff) as u8 == b7,
{
    let v = (b0 as u64) | ((b1 as u64) << 8) | ((b2 as u64) << 16) | ((b3 as u64) << 24) | ((
    b4 as u64) << 32) | ((b5 as u64) << 40) | ((b6 as u64) << 48) | ((b7 as u64) << 56);
    assert((v & 0xff) as u8 == b0 && ((v >> 8) & 0xff) as u8 == b1 && ((v >> 16) & 0xff) as u8
        == b2 && ((v >> 24) & 0xff) as u8 == b3 && ((v >> 32) & 0xff) as u8 == b4 && ((v >> 40)
        & 0xff) as u8 == b5 && ((v >> 48) & 0xff) as u8 == b6 && ((v >> 56) & 0xff) as u8 == b7)
        by (bit_vector)
        requires
            v == (b0 as u64) | ((b1 as u64) << 8) | ((b2 as u64) << 16) | ((b3 as u64) << 24) | ((
            b4 as u64) << 32) | ((b5 as u64) << 40) | ((b6 as u64) << 48) | ((b7 as u64) << 56),
    {
    }
}

// --- primitive decoders -----------------------------------------------------

pub open spec fn dec_u8(s: Seq<u8>, pos: int) -> Option<(u8, int)> {
    if 0 <= pos && pos + 1 <= s.len() {
        Some((s[pos], pos + 1))
    } else {
        None
    }
}

pub open spec fn dec_u32(s: Seq<u8>, pos: int) -> Option<(u32, int)> {
    if 0 <= pos && pos + 4 <= s.len() {
        Some((u32_from_le(s[pos], s[pos + 1], s[pos + 2], s[pos + 3]), pos + 4))
    } else {
        None
    }
}

pub open spec fn dec_u64(s: Seq<u8>, pos: int) -> Option<(u64, int)> {
    if 0 <= pos && pos + 8 <= s.len() {
        Some(
            (
                u64_from_le(
                    s[pos],
                    s[pos + 1],
                    s[pos + 2],
                    s[pos + 3],
                    s[pos + 4],
                    s[pos + 5],
                    s[pos + 6],
                    s[pos + 7],
                ),
                pos + 8,
            ),
        )
    } else {
        None
    }
}

/// Sizes travel as 64-bit values; one that does not fit the platform's
/// index type makes the payload malformed.
pub open spec fn dec_usize(s: Seq<u8>, pos: int) -> Option<(usize, int)> {
    match dec_u64(s, pos) {
        Some((v, p)) => if v <= usize::MAX {
            Some((v as usize, p))
        } else {
            None
        },
        None => None,
    }
}

// --- primitive round-trip lemmas --------------------------------------------

proof fn lemma_dec_u8(v: u8, s: Seq<u8>, pos: int)
    requires
        0 <= pos,
        pos + 1 <= s.len(),
        s.subrange(pos, pos + 1) == enc_u8(v),
    ensures
        dec_u8(s, pos) == Some((v, pos + 1)),
{
    assert(s[pos] == enc_u8(v)[0]);
}

proof fn lemma_dec_u64(v: u64, s: Seq<u8>, pos: int)
    requires
        0 <= pos,
        pos + 8 <= s.len(),
        s.subrange(pos, pos + 8) == enc_u64(v),
    ensures
        dec_u64(s, pos) == Some((v, pos + 8)),
{
    assert forall|k: int| 0 <= k < 8 implies s[pos + k] == enc_u64(v)[k] by {
        assert(s.subrange(pos, pos + 8)[k] == s[pos + k]);
    }
    lemma_u64_le_round_trip(v);
}

/// Splitting a known subrange of `s` into two adjacent encoded pieces.
proof fn lemma_subrange_split(s: Seq<u8>, pos: int, a: Seq<u8>, b: Seq<u8>)
    requires
        0 <= pos,
        pos + a.len() + b.len() <= s.len(),
        s.subrange(pos, pos + a.len() + b.len()) == a + b,
    ensures
        s.subrange(pos, pos + a.len() as int) == a,
        s.subrange(pos + a.len() as int, pos + a.len() + b.len()) == b,
{
    let n = a.len() as int;
    let m = b.len() as int;
    let whole = s.subrange(pos, pos + n + m);
    assert(whole == a + b);
    assert forall|k: int| 0 <= k < n implies s[pos + k] == a[k] by {
        assert(whole[k] == s[pos + k]);
        assert((a + b)[k] == a[k]);
    }
    assert forall|k: int| 0 <= k < m implies s[pos + n + k] == b[k] by {
        assert(whole[n + k] == s[pos + n + k]);
        assert((a + b)[n + k] == b[k]);
    }
    assert(s.subrange(pos, pos + n) =~= a);
    assert(s.subrange(pos + n, pos + n + m) =~= b);
}

// --- primitive writers and readers ------------------------------------------

fn write_u8(out: &mut Vec<u8>, v: u8)
    ensures
        final(out)@ == old(out)@ + enc_u8(v),
{
    out.push(v);
    proof {
        assert(final(out)@ =~= old(out)@ + enc_u8(v));
    }
}

fn write_u32(out: &mut Vec<u8>, v: u32)
    ensures
        final(out)@ == old(out)@ + enc_u32(v),
{
    out.push(#[verifier::truncate] ((v & 0xff) as u8));
    out.push(#[verifier::truncate] (((v >> 8) & 0xff) as u8));
    out.push(#[verifier::truncate] (((v >> 16) & 0xff) as u8));
    out.push(#[verifier::truncate] (((v >> 24) & 0xff) as u8));
    proof {
        assert(final(out)@ =~= old(out)@ + enc_u32(v));
    }
}

fn write_u64(out: &mut Vec<u8>, v: u64)
    ensures
        final(out)@ == old(out)@ + enc_u64(v),
{
    out.push(#[verifier::truncate] ((v & 0xff) as u8));
    out.push(#[verifier::truncate] (((v >> 8) & 0xff) as u8));
    out.push(#[verifier::truncate] (((v >> 16) & 0xff) as u8));
    out.push(#[verifier::truncate] (((v >> 24) & 0xff) as u8));
    out.push(#[verifier::truncate] (((v >> 32) & 0xff) as u8));
    out.push(#[verifier::truncate] (((v >> 40) & 0xff) as u8));
    out.push(#[verifier::truncate] (((v >> 48) & 0xff) as u8));
    out.push(#[verifier::truncate] (((v >> 56) & 0xff) as u8));
    proof {
        assert(final(out)@ =~= old(out)@ + enc_u64(v));
    }
}

fn read_u8(s: &Vec<u8>, pos: usize) -> (r: Option<(u8, usize)>)
    ensures
        match r {
            Some((v, p)) => dec_u8(s@, pos as int) == Some((v, p as int)),
            None => dec_u8(s@, pos as int) is None,
        },
{
    if pos < s.len() {
        Some((s[pos], pos + 1))
    } else {
        None
    }
}

fn read_u32(s: &Vec<u8>, pos: usize) -> (r: Option<(u32, usize)>)
    ensures
        match r {
            Some((v, p)) => dec_u32(s@, pos as int) == Some((v, p as int)),
            None => dec_u32(s@, pos as int) is None,
        },
{
    if pos < s.len() && s.len() - pos >= 4 {
        let b0 = s[pos];
        let b1 = s[pos + 1];
        let b2 = s[pos + 2];
        let b3 = s[pos + 3];
        let v = (b0 as u32) | ((b1 as u32) << 8) | ((b2 as u32) << 16) | ((b3 as u32) << 24);
        Some((v, pos + 4))
    } else {
        None
    }
}

fn read_u64(s: &Vec<u8>, pos: usize) -> (r: Option<(u64, usize)>)
    ensures
        match r {
            Some((v, p)) => dec_u64(s@, pos as int) == Some((v, p as int)),
            None => dec_u64(s@, pos as int) is None,
        },
{
    if pos < s.len() && s.len() - pos >= 8 {
        let b0 = s[pos];
        let b1 = s[pos + 1];
        let b2 = s[pos + 2];
        let b3 = s[pos + 3];
        let b4 = s[pos + 4];
        let b5 = s[pos + 5];
        let b6 = s[pos + 6];
        let b7 = s[pos + 7];
        let v = (b0 as u64) | ((b1 as u64) << 8) | ((b2 as u64) << 16) | ((b3 as u64) << 24) | ((
        b4 as u64) << 32) | ((b5 as u64) << 40) | ((b6 as u64) << 48) | ((b7 as u64) << 56);
        Some((v, pos + 8))
    } else {
        None
    }
}

fn read_usize(s: &Vec<u8>, pos: usize) -> (r: Option<(usize, usize)>)
    ensures
        match r {
            Some((v, p)) => dec_usize(s@, pos as int) == Some((v, p as int)),
            None => dec_usize(s@, pos as int) is None,
        },
{
    match read_u64(s, pos) {
        Some((v, p)) => {
            if v <= (usize::MAX as u64) {
                Some((v as usize, p))
            } else {
                None
            }
        },
        None => None,
    }
}

/// Appends every byte of `bytes` to `out`.
fn write_bytes(out: &mut Vec<u8>, bytes: &Vec<u8>)
    ensures
        final(out)@ == old(out)@ + bytes@,
{
    let mut i: usize = 0;
    #[verifier::loop_isolation(false)]
    while i < bytes.len()
        invariant
            i <= bytes@.len(),
            out@ == old(out)@ + bytes@.subrange(0, i as int),
        decreases bytes@.len() - i,
    {
        out.push(bytes[i]);
        proof {
            assert(out@ =~= old(out)@ + bytes@.subrange(0, i as int + 1));
        }
        i = i + 1;
    }
    proof {
        assert(old(out)@ + bytes@.subrange(0, bytes@.len() as int) =~= old(out)@ + bytes@);
    }
}

// --- targets -----------------------------------------------------------------

pub open spec fn enc_target(t: Target) -> Seq<u8> {
    enc_u64(t.party_index as u64) + enc_u64(t.member_index as u64)
}

pub open spec fn dec_target(s: Seq<u8>, pos: int) -> Option<(Target, int)> {
    match dec_usize(s, pos) {
        Some((party_index, p2)) => match dec_usize(s, p2) {
            Some((member_index, p3)) => Some((Target { party_index, member_index }, p3)),
            None => None,
        },
        None => None,
    }
}

proof fn lemma_dec_target(t: Target, s: Seq<u8>, pos: int)
    requires
        0 <= pos,
        pos + 16 <= s.len(),
        s.subrange(pos, pos + 16) == enc_target(t),
    ensures
        dec_target(s, pos) == Some((t, pos + 16)),
{
    lemma_subrange_split(
        s,
        pos,
        enc_u64(t.party_index as u64),
        enc_u64(t.member_index as u64),
    );
    lemma_dec_u64(t.party_index as u64, s, pos);
    lemma_dec_u64(t.member_index as u64, s, pos + 8);
}

fn write_target(out: &mut Vec<u8>, t: Target)
    ensures
        final(out)@ == old(out)@ + enc_target(t),
{
    write_u64(out, t.party_index as u64);
    write_u64(out, t.member_index as u64);
    proof {
        assert(final(out)@ =~= old(out)@ + enc_target(t));
    }
}

fn read_target(s: &Vec<u8>, pos: usize) -> (r: Option<(Target, usize)>)
    ensures
        match r {
            Some((t, p)) => dec_target(s@, pos as int) == Some((t, p as int)),
            None => dec_target(s@, pos as int) is None,
        },
{
    match read_usize(s, pos) {
        Some((party_index, p2)) => match read_usize(s, p2) {
            Some((member_index, p3)) => Some((Target { party_index, member_index }, p3)),
            None => None,
        },
        None => None,
    }
}

/// The bodies of a target list, without the length prefix.
pub open spec fn enc_target_seq(ts: Seq<Target>) -> Seq<u8>
    decreases ts.len(),
{
    if ts.len() == 0 {
        Seq::empty()
    } else {
        enc_target(ts.first()) + enc_target_seq(ts.drop_first())
    }
}

/// A target list: a 64-bit count followed by the targets.
pub open spec fn enc_targets(ts: Seq<Target>) -> Seq<u8> {
    enc_u64(ts.len() as u64) + enc_target_seq(ts)
}

pub open spec fn dec_target_seq(s: Seq<u8>, pos: int, n: int) -> Option<(Seq<Target>, int)>
    decreases n,
{
    if n <= 0 {
        Some((Seq::empty(), pos))
    } else {
        match dec_target(s, pos) {
            Some((t, p2)) => match dec_target_seq(s, p2, n - 1) {
                Some((rest, p3)) => Some((seq![t] + rest, p3)),
                None => None,
            },
            None => None,
        }
    }
}

pub open spec fn dec_targets(s: Seq<u8>, pos: int) -> Option<(Seq<Target>, int)> {
    match dec_u64(s, pos) {
        Some((n, p2)) => if n <= usize::MAX {
            dec_target_seq(s, p2, n as int)
        } else {
            None
        },
        None => None,
    }
}

proof fn lemma_enc_target_seq_len(ts: Seq<Target>)
    ensures
        enc_target_seq(ts).len() == 16 * ts.len(),
    decreases ts.len(),
{
    if ts.len() > 0 {
        lemma_enc_target_seq_len(ts.drop_first());
    }
}

proof fn lemma_enc_target_seq_push(ts: Seq<Target>, t: Target)
    ensures
        enc_target_seq(ts.push(t)) == enc_target_seq(ts) + enc_target(t),
    decreases ts.len(),
{
    if ts.len() == 0 {
        assert(ts.push(t).first() == t);
        assert(ts.push(t).drop_first() =~= Seq::<Target>::empty());
        assert(enc_target_seq(ts.push(t)) == enc_target(t) + enc_target_seq(
            Seq::<Target>::empty(),
        ));
        assert(enc_target_seq(ts.push(t)) =~= enc_target_seq(ts) + enc_target(t));
    } else {
        assert(ts.push(t).first() == ts.first());
        assert(ts.push(t).drop_first() =~= ts.drop_first().push(t));
        lemma_enc_target_seq_push(ts.drop_first(), t);
        assert(enc_target_seq(ts.push(t)) =~= enc_target_seq(ts) + enc_target(t));
    }
}

proof fn lemma_dec_target_seq(ts: Seq<Target>, s: Seq<u8>, pos: int)
    requires
        0 <= pos,
        pos + enc_target_seq(ts).len() <= s.len(),
        s.subrange(pos, pos + enc_target_seq(ts).len()) == enc_target_seq(ts),
    ensures
        dec_target_seq(s, pos, ts.len() as int) == Some((ts, pos + enc_target_seq(ts).len())),
    decreases ts.len(),
{
    lemma_enc_target_seq_len(ts);
    if ts.len() > 0 {
        lemma_enc_target_seq_len(ts.drop_first());
        lemma_subrange_split(s, pos, enc_target(ts.first()), enc_target_seq(ts.drop_first()));
        lemma_dec_target(ts.first(), s, pos);
        lemma_dec_target_seq(ts.drop_first(), s, pos + 16);
        assert(seq![ts.first()] + ts.drop_first() =~= ts);
    }
}

proof fn lemma_dec_targets(ts: Seq<Target>, s: Seq<u8>, pos: int)
    requires
        0 <= pos,
        ts.len() <= usize::MAX,
        pos + enc_targets(ts).len() <= s.len(),
        s.subrange(pos, pos + enc_targets(ts).len()) == enc_targets(ts),
    ensures
        dec_targets(s, pos) == Some((ts, pos + enc_targets(ts).len())),
{
    lemma_enc_target_seq_len(ts);
    lemma_subrange_split(s, pos, enc_u64(ts.len() as u64), enc_target_seq(ts));
    lemma_dec_u64(ts.len() as u64, s, pos);
    lemma_dec_target_seq(ts, s, pos + 8);
}

fn write_targets(out: &mut Vec<u8>, ts: &Vec<Target>)
    ensures
        final(out)@ == old(out)@ + enc_targets(ts@),
{
    write_u64(out, ts.len() as u64);
    let mut i: usize = 0;
    #[verifier::loop_isolation(false)]
    while i < ts.len()
        invariant
            i <= ts@.len(),
            out@ == old(out)@ + enc_u64(ts@.len() as u64) + enc_target_seq(ts@.subrange(0, i as int)),
        decreases ts@.len() - i,
    {
        write_target(out, ts[i]);
        proof {
            assert(ts@.subrange(0, i as int + 1) =~= ts@.subrange(0, i as int).push(ts@[i as int]));
            lemma_enc_target_seq_push(ts@.subrange(0, i as int), ts@[i as int]);
            assert(out@ =~= old(out)@ + enc_u64(ts@.len() as u64) + enc_target_seq(
                ts@.subrange(0, i as int + 1),
            ));
        }
        i = i + 1;
    }
    proof {
        assert(ts@.subrange(0, ts@.len() as int) =~= ts@);
        assert(old(out)@ + enc_u64(ts@.len() as u64) + enc_target_seq(ts@) =~= old(out)@
            + enc_targets(ts@));
    }
}

fn read_target_seq(s: &Vec<u8>, pos: usize, n: usize) -> (r: Option<(Vec<Target>, usize)>)
    ensures
        match r {
            Some((ts, p)) => dec_target_seq(s@, pos as int, n as int) == Some((ts@, p as int)),
            None => dec_target_seq(s@, pos as int, n as int) is None,
        },
{
    let mut acc: Vec<Target> = Vec::new();
    let mut cur: usize = pos;
    let mut i: usize = 0;
    #[verifier::loop_isolation(false)]
    while i < n
        invariant
            i <= n,
            match dec_target_seq(s@, cur as int, n - i) {
                Some((rest, p)) => dec_target_seq(s@, pos as int, n as int) == Some(
                    (acc@ + rest, p),
                ),
                None => dec_target_seq(s@, pos as int, n as int) is None,
            },
        decreases n - i,
    {
        match read_target(s, cur) {
            Some((t, p2)) => {
                acc.push(t);
                proof {
                    match dec_target_seq(s@, p2 as int, n - i - 1) {
                        Some((rest2, pend)) => {
                            assert(acc@ + rest2 =~= acc@.drop_last() + (seq![t] + rest2));
                        },
                        None => (),
                    }
                }
                cur = p2;
            },
            None => {
                return None;
            },
        }
        i = i + 1;
    }
    proof {
        assert(dec_target_seq(s@, cur as int, 0) == Some((Seq::<Target>::empty(), cur as int)));
        assert(acc@ + Seq::<Target>::empty() =~= acc@);
    }
    Some((acc, cur))
}

fn read_targets(s: &Vec<u8>, pos: usize) -> (r: Option<(Vec<Target>, usize)>)
    ensures
        match r {
            Some((ts, p)) => dec_targets(s@, pos as int) == Some((ts@, p as int)),
            None => dec_targets(s@, pos as int) is None,
        },
{
    match read_u64(s, pos) {
        Some((n, p2)) => {
            if n <= (usize::MAX as u64) {
                read_target_seq(s, p2, n as usize)
            } else {
                None
            }
        },
        None => None,
    }
}

// --- combat events -----------------------------------------------------------

/// The canonical payload of a combat event: a one-byte action discriminant
/// followed by the action's fields.
pub open spec fn enc_combat_event(e: CombatEventView) -> Seq<u8> {
    match e {
        CombatEventView::Attack { source, targets } => enc_u8(0) + (enc_target(source)
            + enc_targets(targets)),
        CombatEventView::Consumable { source, consumable, targets } => enc_u8(1) + (enc_target(
            source,
        ) + (enc_u64(consumable.0 as u64) + enc_targets(targets))),
        CombatEventView::Skill { source, skill, targets } => enc_u8(2) + (enc_target(source) + (
        enc_u64(skill.0 as u64) + enc_targets(targets))),
        CombatEventView::Skip => enc_u8(3),
    }
}

pub open spec fn dec_combat_event(s: Seq<u8>, pos: int) -> Option<(CombatEventView, int)> {
    match dec_u8(s, pos) {
        Some((kind, p1)) => if kind == 0 {
            match dec_target(s, p1) {
                Some((source, p2)) => match dec_targets(s, p2) {
                    Some((targets, p3)) => Some((CombatEventView::Attack { source, targets }, p3)),
                    None => None,
                },
                None => None,
            }
        } else if kind == 1 {
            match dec_target(s, p1) {
                Some((source, p2)) => match dec_usize(s, p2) {
                    Some((id, p3)) => match dec_targets(s, p3) {
                        Some((targets, p4)) => Some(
                            (
                                CombatEventView::Consumable {
                                    source,
                                    consumable: ConsumableIdentifier(id),
                                    targets,
                                },
                                p4,
                            ),
                        ),
                        None => None,
                    },
                    None => None,
                },
                None => None,
            }
        } else if kind == 2 {
            match dec_target(s, p1) {
                Some((source, p2)) => match dec_usize(s, p2) {
                    Some((id, p3)) => match dec_targets(s, p3) {
                        Some((targets, p4)) => Some(
                            (CombatEventView::Skill { source, skill: SkillIdentifier(id), targets }, p4),
                        ),
                        None => None,
                    },
                    None => None,
                },
                None => None,
            }
        } else if kind == 3 {
            Some((CombatEventView::Skip, p1))
        } else {
            None
        },
        None => None,
    }
}

/// The event's target list fits the platform's index type, as it does for
/// every event built from a real vector.
pub open spec fn event_lens_bounded(e: CombatEventView) -> bool {
    match e {
        CombatEventView::Attack { targets, .. } => targets.len() <= usize::MAX,
        CombatEventView::Consumable { targets, .. } => targets.len() <= usize::MAX,
        CombatEventView::Skill { targets, .. } => targets.len() <= usize::MAX,
        CombatEventView::Skip => true,
    }
}

#[verifier::rlimit(60)]
proof fn lemma_dec_combat_event(e: CombatEventView, s: Seq<u8>, pos: int)
    requires
        0 <= pos,
        event_lens_bounded(e),
        pos + enc_combat_event(e).len() <= s.len(),
        s.subrange(pos, pos + enc_combat_event(e).len()) == enc_combat_event(e),
    ensures
        dec_combat_event(s, pos) == Some((e, pos + enc_combat_event(e).len())),
{
    match e {
        CombatEventView::Attack { source, targets } => {
            lemma_subrange_split(s, pos, enc_u8(0), enc_target(source) + enc_targets(targets));
            lemma_dec_u8(0, s, pos);
            lemma_subrange_split(s, pos + 1, enc_target(source), enc_targets(targets));
            lemma_dec_target(source, s, pos + 1);
            lemma_dec_targets(targets, s, pos + 17);
        },
        CombatEventView::Consumable { source, consumable, targets } => {
            lemma_subrange_split(
                s,
                pos,
                enc_u8(1),
                enc_target(source) + (enc_u64(consumable.0 as u64) + enc_targets(targets)),
            );
            lemma_dec_u8(1, s, pos);
            lemma_subrange_split(
                s,
                pos + 1,
                enc_target(source),
                enc_u64(consumable.0 as u64) + enc_targets(targets),
            );
            lemma_dec_target(source, s, pos + 1);
            lemma_subrange_split(
                s,
                pos + 17,
                enc_u64(consumable.0 as u64),
                enc_targets(targets),
            );
            lemma_dec_u64(consumable.0 as u64, s, pos + 17);
            lemma_dec_targets(targets, s, pos + 25);
        },
        CombatEventView::Skill { source, skill, targets } => {
            lemma_subrange_split(
                s,
                pos,
                enc_u8(2),
                enc_target(source) + (enc_u64(skill.0 as u64) + enc_targets(targets)),
            );
            lemma_dec_u8(2, s, pos);
            lemma_subrange_split(
                s,
                pos + 1,
                enc_target(source),
                enc_u64(skill.0 as u64) + enc_targets(targets),
            );
            lemma_dec_target(source, s, pos + 1);
            lemma_subrange_split(s, pos + 17, enc_u64(skill.0 as u64), enc_targets(targets));
            lemma_dec_u64(skill.0 as u64, s, pos + 17);
            lemma_dec_targets(targets, s, pos + 25);
        },
        CombatEventView::Skip => {
            assert(s.subrange(pos, pos + 1) =~= enc_u8(3));
            lemma_dec_u8(3, s, pos);
        },
    }
}

/// Decoding an event payload: the whole payload must be consumed.
pub open spec fn decode_event_payload(s: Seq<u8>) -> Option<CombatEventView> {
    match dec_combat_event(s, 0) {
        Some((e, p)) => if p == s.len() {
            Some(e)
        } else {
            None
        },
        None => None,
    }
}

/// Round trip: the canonical payload of any combat event decodes back to
/// the identical event.
pub proof fn lemma_combat_event_round_trip(e: CombatEventView)
    requires
        event_lens_bounded(e),
    ensures
        decode_event_payload(enc_combat_event(e)) == Some(e),
{
    let s = enc_combat_event(e);
    assert(s.subrange(0, s.len() as int) =~= s);
    lemma_dec_combat_event(e, s, 0);
}

/// Encodes a combat event into its wire envelope.
pub fn encode_combat_event(event: &CombatEvent) -> (r: crate::message::Message)
    ensures
        r@.type_ == crate::message::MessageType::CombatEvent,
        r@.payload == enc_combat_event(event@),
{
    let mut payload: Vec<u8> = Vec::new();
    match event {
        CombatEvent::AttackEvent { source, targets } => {
            write_u8(&mut payload, 0);
            write_target(&mut payload, *source);
            write_targets(&mut payload, targets);
        },
        CombatEvent::ConsumableEvent { source, consumable, targets } => {
            write_u8(&mut payload, 1);
            write_target(&mut payload, *source);
            write_u64(&mut payload, consumable.0 as u64);
            write_targets(&mut payload, targets);
        },
        CombatEvent::SkillEvent { source, skill, targets } => {
            write_u8(&mut payload, 2);
            write_target(&mut payload, *source);
            write_u64(&mut payload, skill.0 as u64);
            write_targets(&mut payload, targets);
        },
        CombatEvent::SkipEvent => {
            write_u8(&mut payload, 3);
        },
    }
    proof {
        assert(payload@ =~= enc_combat_event(event@));
    }
    crate::message::Message { type_: crate::message::MessageType::CombatEvent, payload }
}

/// Decodes a combat event from its wire envelope. Yields nothing when the
/// message carries a different tag, when the payload is malformed, or when
/// trailing bytes remain.
pub fn decode_combat_event(message: &crate::message::Message) -> (r: Option<CombatEvent>)
    ensures
        match r {
            Some(e) => message@.type_ == crate::message::MessageType::CombatEvent
                && decode_event_payload(message@.payload) == Some(e@),
            None => message@.type_ != crate::message::MessageType::CombatEvent
                || decode_event_payload(message@.payload) is None,
        },
{
    if !matches!(message.type_, crate::message::MessageType::CombatEvent) {
        return None;
    }
    let s = &message.payload;
    match read_u8(s, 0) {
        Some((kind, p1)) => {
            if kind == 0 {
                match read_target(s, p1) {
                    Some((source, p2)) => match read_targets(s, p2) {
                        Some((targets, p3)) => {
                            if p3 == s.len() {
                                Some(CombatEvent::AttackEvent { source, targets })
                            } else {
                                None
                            }
                        },
                        None => None,
                    },
                    None => None,
                }
            } else if kind == 1 {
                match read_target(s, p1) {
                    Some((source, p2)) => match read_usize(s, p2) {
                        Some((id, p3)) => match read_targets(s, p3) {
                            Some((targets, p4)) => {
                                if p4 == s.len() {
                                    Some(
                                        CombatEvent::ConsumableEvent {
                                            source,
                                            consumable: ConsumableIdentifier(id),
                                            targets,
                                        },
                                    )
                                } else {
                                    None
                                }
                            },
                            None => None,
                        },
                        None => None,
                    },
                    None => None,
                }
            } else if kind == 2 {
                match read_target(s, p1) {
                    Some((source, p2)) => match read_usize(s, p2) {
                        Some((id, p3)) => match read_targets(s, p3) {
                            Some((targets, p4)) => {
                                if p4 == s.len() {
                                    Some(
                                        CombatEvent::SkillEvent {
                                            source,
                                            skill: SkillIdentifier(id),
                                            targets,
                                        },
                                    )
                                } else {
                                    None
                                }
                            },
                            None => None,
                        },
                        None => None,
                    },
                    None => None,
                }
            } else if kind == 3 {
                if p1 == s.len() {
                    Some(CombatEvent::SkipEvent)
                } else {
                    None
                }
            } else {
                None
            }
        },
        None => None,
    }
}

// --- the message envelope ------------------------------------------------------

/// The wire form of an envelope: the stable one-byte tag, a 64-bit payload
/// length, then the payload bytes.
pub open spec fn enc_message(m: crate::message::MessageView) -> Seq<u8> {
    enc_u8(crate::message::tag_of(m.type_)) + (enc_u64(m.payload.len() as u64) + m.payload)
}

pub open spec fn dec_message(s: Seq<u8>, pos: int) -> Option<(crate::message::MessageView, int)> {
    match dec_u8(s, pos) {
        Some((tag, p1)) => match crate::message::type_of_tag(tag) {
            Some(type_) => match dec_u64(s, p1) {
                Some((n, p2)) => if n <= usize::MAX && p2 + n <= s.len() {
                    Some(
                        (
                            crate::message::MessageView {
                                type_,
                                payload: s.subrange(p2, p2 + n),
                            },
                            p2 + n,
                        ),
                    )
                } else {
                    None
                },
                None => None,
            },
            None => None,
        },
        None => None,
    }
}

/// Round trip: the wire form of any envelope decodes back to the identical
/// envelope, consuming exactly its own bytes.
pub proof fn lemma_message_round_trip(m: crate::message::MessageView, s: Seq<u8>, pos: int)
    requires
        0 <= pos,
        m.payload.len() <= usize::MAX,
        pos + enc_message(m).len() <= s.len(),
        s.subrange(pos, pos + enc_message(m).len()) == enc_message(m),
    ensures
        dec_message(s, pos) == Some((m, pos + enc_message(m).len())),
{
    lemma_subrange_split(
        s,
        pos,
        enc_u8(crate::message::tag_of(m.type_)),
        enc_u64(m.payload.len() as u64) + m.payload,
    );
    lemma_dec_u8(crate::message::tag_of(m.type_), s, pos);
    crate::message::lemma_tag_round_trip(m.type_);
    lemma_subrange_split(s, pos + 1, enc_u64(m.payload.len() as u64), m.payload);
    lemma_dec_u64(m.payload.len() as u64, s, pos + 1);
    assert(s.subrange(pos + 9, pos + 9 + m.payload.len()) == m.payload);
    assert(dec_message(s, pos) == Some((
        crate::message::MessageView { type_: m.type_, payload: m.payload },
        pos + 9 + m.payload.len(),
    )));
    assert(crate::message::MessageView { type_: m.type_, payload: m.payload } =~= m);
}

/// Encodes an envelope for the transport.
pub fn encode_message(message: &crate::message::Message) -> (r: Vec<u8>)
    ensures
        r@ == enc_message(message@),
{
    let mut out: Vec<u8> = Vec::new();
    write_u8(&mut out, message.type_.tag());
    write_u64(&mut out, message.payload.len() as u64);
    write_bytes(&mut out, &message.payload);
    proof {
        assert(out@ =~= enc_message(message@));
    }
    out
}

/// Decodes an envelope received from the transport. Yields nothing when the
/// bytes are truncated, carry an unknown tag, or leave trailing garbage.
pub fn decode_message(bytes: &Vec<u8>) -> (r: Option<crate::message::Message>)
    ensures
        match r {
            Some(m) => dec_message(bytes@, 0) == Some((m@, bytes@.len() as int)),
            None => match dec_message(bytes@, 0) {
                Some((_, p)) => p != bytes@.len(),
                None => true,
            },
        },
{
    let tag_read = read_u8(bytes, 0);
    match tag_read {
        Some((tag, p1)) => match crate::message::MessageType::from_tag(tag) {
            Some(type_) => match read_u64(bytes, p1) {
                Some((n, p2)) => {
                    if n <= (usize::MAX as u64) && (n as usize) <= bytes.len() - p2 {
                        let count = n as usize;
                        let mut payload: Vec<u8> = Vec::new();
                        let mut i: usize = 0;
                        #[verifier::loop_isolation(false)]
                        while i < count
                            invariant
                                i <= count,
                                p2 + count <= bytes@.len(),
                                payload@ == bytes@.subrange(p2 as int, p2 as int + i as int),
                            decreases count - i,
                        {
                            payload.push(bytes[p2 + i]);
                            proof {
                                assert(payload@ =~= bytes@.subrange(
                                    p2 as int,
                                    p2 as int + i as int + 1,
                                ));
                            }
                            i = i + 1;
                        }
                        if p2 + count == bytes.len() {
                            Some(crate::message::Message { type_, payload })
                        } else {
                            None
                        }
                    } else {
                        None
                    }
                },
                None => None,
            },
            None => None,
        },
        None => None,
    }
}

// --- sound-direction helpers --------------------------------------------------
//
// A decoder only ever returns a value whose canonical encoding is exactly
// the bytes it consumed. These lemmas give that direction for the
// primitives; the composite readers below carry it through their fields.

proof fn lemma_u8_sound(s: Seq<u8>, pos: int)
    requires
        dec_u8(s, pos) is Some,
    ensures
        s.subrange(pos, pos + 1) == enc_u8(dec_u8(s, pos)->Some_0.0),
{
    assert(s.subrange(pos, pos + 1) =~= enc_u8(s[pos]));
}

proof fn lemma_u32_sound(s: Seq<u8>, pos: int)
    requires
        dec_u32(s, pos) is Some,
    ensures
        s.subrange(pos, pos + 4) == enc_u32(dec_u32(s, pos)->Some_0.0),
{
    lemma_u32_le_inverse(s[pos], s[pos + 1], s[pos + 2], s[pos + 3]);
    assert(s.subrange(pos, pos + 4) =~= enc_u32(dec_u32(s, pos)->Some_0.0));
}

proof fn lemma_u64_sound(s: Seq<u8>, pos: int)
    requires
        dec_u64(s, pos) is Some,
    ensures
        s.subrange(pos, pos + 8) == enc_u64(dec_u64(s, pos)->Some_0.0),
{
    lemma_u64_le_inverse(
        s[pos],
        s[pos + 1],
        s[pos + 2],
        s[pos + 3],
        s[pos + 4],
        s[pos + 5],
        s[pos + 6],
        s[pos + 7],
    );
    assert(s.subrange(pos, pos + 8) =~= enc_u64(dec_u64(s, pos)->Some_0.0));
}

proof fn lemma_subrange_join(s: Seq<u8>, a: int, b: int, c: int)
    requires
        0 <= a <= b <= c <= s.len(),
    ensures
        s.subrange(a, c) == s.subrange(a, b) + s.subrange(b, c),
{
    assert(s.subrange(a, c) =~= s.subrange(a, b) + s.subrange(b, c));
}

// --- spec-level decoders for the small payload pieces -------------------------

pub open spec fn dec_i64(s: Seq<u8>, pos: int) -> Option<(i64, int)> {
    match dec_u64(s, pos) {
        Some((v, p)) => Some((v as i64, p)),
        None => None,
    }
}

pub open spec fn dec_aspect(s: Seq<u8>, pos: int) -> Option<(Aspect, int)> {
    match dec_u8(s, pos) {
        Some((b, p)) => if b == 0 {
            Some((Aspect::Fire, p))
        } else if b == 1 {
            Some((Aspect::Frost, p))
        } else if b == 2 {
            Some((Aspect::Lightning, p))
        } else if b == 3 {
            Some((Aspect::Physical, p))
        } else {
            None
        },
        None => None,
    }
}

pub open spec fn dec_gender(s: Seq<u8>, pos: int) -> Option<(Gender, int)> {
    match dec_u8(s, pos) {
        Some((b, p)) => if b == 0 {
            Some((Gender::Unspecified, p))
        } else if b == 1 {
            Some((Gender::Male, p))
        } else if b == 2 {
            Some((Gender::Female, p))
        } else if b == 3 {
            Some((Gender::Other, p))
        } else {
            None
        },
        None => None,
    }
}

pub open spec fn dec_lifetime(s: Seq<u8>, pos: int) -> Option<(Lifetime, int)> {
    match dec_u8(s, pos) {
        Some((b, p1)) => if b == 0 {
            match dec_u32(s, p1) {
                Some((duration, p2)) => Some((Lifetime::Active { duration }, p2)),
                None => None,
            }
        } else if b == 1 {
            Some((Lifetime::Constant, p1))
        } else {
            None
        },
        None => None,
    }
}

pub open spec fn dec_modifier(s: Seq<u8>, pos: int) -> Option<(Modifier, int)> {
    match dec_u8(s, pos) {
        Some((b, p1)) => {
            let expression = if b == 0 {
                match dec_i64(s, p1) {
                    Some((v, p2)) => Some((ModifierExpression::Add(v), p2)),
                    None => None,
                }
            } else if b == 1 {
                match dec_u64(s, p1) {
                    Some((v, p2)) => Some((ModifierExpression::Multiply(v), p2)),
                    None => None,
                }
            } else {
                None
            };
            match expression {
                Some((expression, p2)) => match dec_lifetime(s, p2) {
                    Some((lifetime, p3)) => Some((Modifier { expression, lifetime }, p3)),
                    None => None,
                },
                None => None,
            }
        },
        None => None,
    }
}

pub open spec fn dec_dot(s: Seq<u8>, pos: int) -> Option<(DOT, int)> {
    match dec_aspect(s, pos) {
        Some((aspect, p1)) => match dec_u64(s, p1) {
            Some((damage_value, p2)) => match dec_lifetime(s, p2) {
                Some((lifetime, p3)) => Some((DOT { aspect, damage_value, lifetime }, p3)),
                None => None,
            },
            None => None,
        },
        None => None,
    }
}

pub open spec fn dec_opt_index(s: Seq<u8>, pos: int) -> Option<(Option<u64>, int)> {
    match dec_u8(s, pos) {
        Some((b, p1)) => if b == 0 {
            Some((None, p1))
        } else if b == 1 {
            match dec_u64(s, p1) {
                Some((v, p2)) => Some((Some(v), p2)),
                None => None,
            }
        } else {
            None
        },
        None => None,
    }
}

pub open spec fn dec_item(s: Seq<u8>, pos: int) -> Option<(Item, int)> {
    match dec_u8(s, pos) {
        Some((b, p1)) => if b > 6 {
            None
        } else {
            match dec_usize(s, p1) {
                Some((id, p2)) => {
                    let item = if b == 0 {
                        Item::Bodywear(crate::item::BodywearIdentifier(id))
                    } else if b == 1 {
                        Item::Consumable(ConsumableIdentifier(id))
                    } else if b == 2 {
                        Item::Footwear(crate::item::FootwearIdentifier(id))
                    } else if b == 3 {
                        Item::Handwear(crate::item::HandwearIdentifier(id))
                    } else if b == 4 {
                        Item::Headwear(crate::item::HeadwearIdentifier(id))
                    } else if b == 5 {
                        Item::Legwear(crate::item::LegwearIdentifier(id))
                    } else {
                        Item::Weapon(crate::item::WeaponIdentifier(id))
                    };
                    Some((item, p2))
                },
                None => None,
            }
        },
        None => None,
    }
}

pub open spec fn dec_skill(s: Seq<u8>, pos: int) -> Option<(SkillIdentifier, int)> {
    match dec_usize(s, pos) {
        Some((v, p)) => Some((SkillIdentifier(v), p)),
        None => None,
    }
}

pub open spec fn dec_char(s: Seq<u8>, pos: int) -> Option<(char, int)> {
    match dec_u32(s, pos) {
        Some((v, p)) => match spec_char_from_u32(v) {
            Some(c) => Some((c, p)),
            None => None,
        },
        None => None,
    }
}

// --- signed values -------------------------------------------------------------

proof fn lemma_u64_bits_round_trip(v: u64)
    ensures
        (v as i64) as u64 == v,
{
    assert((v as i64) as u64 == v) by (bit_vector);
}

pub open spec fn enc_i64(v: i64) -> Seq<u8> {
    enc_u64(v as u64)
}

fn write_i64(out: &mut Vec<u8>, v: i64)
    ensures
        final(out)@ == old(out)@ + enc_i64(v),
{
    write_u64(out, #[verifier::truncate] (v as u64));
}

fn read_i64(s: &Vec<u8>, pos: usize) -> (r: Option<(i64, usize)>)
    ensures
        match r {
            Some((v, p)) => pos <= p <= s@.len() && s@.subrange(pos as int, p as int) == enc_i64(
                v,
            ) && dec_i64(s@, pos as int) == Some((v, p as int)),
            None => dec_i64(s@, pos as int) is None,
        },
{
    match read_u64(s, pos) {
        Some((bits, p)) => {
            let v = #[verifier::truncate] (bits as i64);
            proof {
                lemma_u64_sound(s@, pos as int);
                lemma_u64_bits_round_trip(bits);
            }
            Some((v, p))
        },
        None => None,
    }
}

// --- characters and strings -----------------------------------------------------

/// The character a Unicode scalar value stands for: defined exactly below
/// the surrogate range and between 0xE000 and 0x10FFFF.
pub open spec fn spec_char_from_u32(v: u32) -> Option<char> {
    if v < 0xD800 || (0xE000 <= v && v <= 0x10FFFF) {
        Some(v as char)
    } else {
        None
    }
}

/// Relies on char::from_u32: yields the character for every valid Unicode
/// scalar value (any code point other than a surrogate) and nothing
/// otherwise.
pub assume_specification[ char::from_u32 ](v: u32) -> (r: Option<char>)
    ensures
        r == spec_char_from_u32(v),
;

/// Relies on String::push: appends the given character to the end of the
/// string.
#[verifier::external_body]
fn push_char(s: &mut String, c: char)
    ensures
        final(s)@ == old(s)@.push(c),
{
    s.push(c);
}

pub open spec fn enc_char(c: char) -> Seq<u8> {
    enc_u32(c as u32)
}

fn write_char(out: &mut Vec<u8>, c: char)
    ensures
        final(out)@ == old(out)@ + enc_char(c),
{
    write_u32(out, c as u32);
}

fn read_char(s: &Vec<u8>, pos: usize) -> (r: Option<(char, usize)>)
    ensures
        match r {
            Some((c, p)) => pos <= p <= s@.len() && s@.subrange(pos as int, p as int) == enc_char(
                c,
            ) && dec_char(s@, pos as int) == Some((c, p as int)),
            None => dec_char(s@, pos as int) is None,
        },
{
    match read_u32(s, pos) {
        Some((v, p)) => match char::from_u32(v) {
            Some(c) => {
                proof {
                    lemma_u32_sound(s@, pos as int);
                    assert(c as u32 == v);
                }
                Some((c, p))
            },
            None => None,
        },
        None => None,
    }
}

pub open spec fn dec_char_seq(s: Seq<u8>, pos: int, n: int) -> Option<(Seq<char>, int)>
    decreases n,
{
    if n <= 0 {
        Some((Seq::empty(), pos))
    } else {
        match dec_char(s, pos) {
            Some((c, p2)) => match dec_char_seq(s, p2, n - 1) {
                Some((rest, p3)) => Some((seq![c] + rest, p3)),
                None => None,
            },
            None => None,
        }
    }
}

pub open spec fn dec_string(s: Seq<u8>, pos: int) -> Option<(Seq<char>, int)> {
    match dec_u64(s, pos) {
        Some((n, p)) => if n <= usize::MAX {
            dec_char_seq(s, p, n as int)
        } else {
            None
        },
        None => None,
    }
}

pub open spec fn enc_char_seq(cs: Seq<char>) -> Seq<u8>
    decreases cs.len(),
{
    if cs.len() == 0 {
        Seq::empty()
    } else {
        enc_char(cs.first()) + enc_char_seq(cs.drop_first())
    }
}

/// A string: a 64-bit character count followed by one 32-bit scalar value
/// per character.
pub open spec fn enc_string(cs: Seq<char>) -> Seq<u8> {
    enc_u64(cs.len() as u64) + enc_char_seq(cs)
}

proof fn lemma_enc_char_seq_push(cs: Seq<char>, c: char)
    ensures
        enc_char_seq(cs.push(c)) == enc_char_seq(cs) + enc_char(c),
    decreases cs.len(),
{
    if cs.len() == 0 {
        assert(cs.push(c).first() == c);
        assert(cs.push(c).drop_first() =~= Seq::<char>::empty());
        assert(enc_char_seq(cs.push(c)) == enc_char(c) + enc_char_seq(Seq::<char>::empty()));
        assert(enc_char_seq(cs.push(c)) =~= enc_char_seq(cs) + enc_char(c));
    } else {
        assert(cs.push(c).first() == cs.first());
        assert(cs.push(c).drop_first() =~= cs.drop_first().push(c));
        lemma_enc_char_seq_push(cs.drop_first(), c);
        assert(enc_char_seq(cs.push(c)) =~= enc_char_seq(cs) + enc_char(c));
    }
}

fn write_string(out: &mut Vec<u8>, text: &String)
    ensures
        final(out)@ == old(out)@ + enc_string(text@),
{
    let n = text.as_str().unicode_len();
    write_u64(out, n as u64);
    let mut i: usize = 0;
    #[verifier::loop_isolation(false)]
    while i < n
        invariant
            i <= text@.len(),
            n == text@.len(),
            out@ == old(out)@ + enc_u64(n as u64) + enc_char_seq(text@.subrange(0, i as int)),
        decreases n - i,
    {
        let c = text.as_str().get_char(i);
        write_char(out, c);
        proof {
            assert(text@.subrange(0, i as int + 1) =~= text@.subrange(0, i as int).push(
                text@[i as int],
            ));
            lemma_enc_char_seq_push(text@.subrange(0, i as int), text@[i as int]);
            assert(out@ =~= old(out)@ + enc_u64(n as u64) + enc_char_seq(
                text@.subrange(0, i as int + 1),
            ));
        }
        i = i + 1;
    }
    proof {
        assert(text@.subrange(0, text@.len() as int) =~= text@);
        assert(old(out)@ + enc_u64(n as u64) + enc_char_seq(text@) =~= old(out)@ + enc_string(
            text@,
        ));
    }
}

fn read_string(s: &Vec<u8>, pos: usize) -> (r: Option<(String, usize)>)
    ensures
        match r {
            Some((text, p)) => pos <= p <= s@.len() && s@.subrange(pos as int, p as int)
                == enc_string(text@) && dec_string(s@, pos as int) == Some((text@, p as int)),
            None => dec_string(s@, pos as int) is None,
        },
{
    match read_u64(s, pos) {
        Some((n64, p0)) => {
            if n64 > (usize::MAX as u64) {
                return None;
            }
            let n = n64 as usize;
            proof {
                lemma_u64_sound(s@, pos as int);
            }
            let mut text = String::new();
            let mut cur: usize = p0;
            let mut i: usize = 0;
            #[verifier::loop_isolation(false)]
            while i < n
                invariant
                    i <= n,
                    text@.len() == i,
                    pos <= p0 <= cur <= s@.len(),
                    s@.subrange(pos as int, cur as int) == enc_u64(n as u64) + enc_char_seq(text@),
                    match dec_char_seq(s@, cur as int, n - i) {
                        Some((rest, pend)) => dec_char_seq(s@, p0 as int, n as int) == Some(
                            (text@ + rest, pend),
                        ),
                        None => dec_char_seq(s@, p0 as int, n as int) is None,
                    },
                decreases n - i,
            {
                match read_char(s, cur) {
                    Some((c, p2)) => {
                        proof {
                            lemma_subrange_join(s@, pos as int, cur as int, p2 as int);
                            lemma_enc_char_seq_push(text@, c);
                            assert(enc_u64(n as u64) + enc_char_seq(text@) + enc_char(c) =~= enc_u64(
                                n as u64,
                            ) + enc_char_seq(text@.push(c)));
                        }
                        push_char(&mut text, c);
                        proof {
                            match dec_char_seq(s@, p2 as int, n - i - 1) {
                                Some((rest2, pend)) => {
                                    assert(text@ + rest2 =~= text@.drop_last() + (seq![c]
                                        + rest2));
                                },
                                None => (),
                            }
                        }
                        cur = p2;
                    },
                    None => {
                        return None;
                    },
                }
                i = i + 1;
            }
            proof {
                assert(dec_char_seq(s@, cur as int, 0) == Some((Seq::<char>::empty(), cur as int)));
                assert(text@ + Seq::<char>::empty() =~= text@);
            }
            Some((text, cur))
        },
        None => None,
    }
}

// --- small enums ----------------------------------------------------------------

pub open spec fn enc_aspect(a: Aspect) -> Seq<u8> {
    match a {
        Aspect::Fire => enc_u8(0),
        Aspect::Frost => enc_u8(1),
        Aspect::Lightning => enc_u8(2),
        Aspect::Physical => enc_u8(3),
    }
}

fn write_aspect(out: &mut Vec<u8>, a: Aspect)
    ensures
        final(out)@ == old(out)@ + enc_aspect(a),
{
    match a {
        Aspect::Fire => write_u8(out, 0),
        Aspect::Frost => write_u8(out, 1),
        Aspect::Lightning => write_u8(out, 2),
        Aspect::Physical => write_u8(out, 3),
    }
}

fn read_aspect(s: &Vec<u8>, pos: usize) -> (r: Option<(Aspect, usize)>)
    ensures
        match r {
            Some((a, p)) => pos <= p <= s@.len() && s@.subrange(pos as int, p as int)
                == enc_aspect(a) && dec_aspect(s@, pos as int) == Some((a, p as int)),
            None => dec_aspect(s@, pos as int) is None,
        },
{
    match read_u8(s, pos) {
        Some((b, p)) => {
            proof {
                lemma_u8_sound(s@, pos as int);
            }
            if b == 0 {
                Some((Aspect::Fire, p))
            } else if b == 1 {
                Some((Aspect::Frost, p))
            } else if b == 2 {
                Some((Aspect::Lightning, p))
            } else if b == 3 {
                Some((Aspect::Physical, p))
            } else {
                None
            }
        },
        None => None,
    }
}

pub open spec fn enc_gender(g: Gender) -> Seq<u8> {
    match g {
        Gender::Unspecified => enc_u8(0),
        Gender::Male => enc_u8(1),
        Gender::Female => enc_u8(2),
        Gender::Other => enc_u8(3),
    }
}

fn write_gender(out: &mut Vec<u8>, g: Gender)
    ensures
        final(out)@ == old(out)@ + enc_gender(g),
{
    match g {
        Gender::Unspecified => write_u8(out, 0),
        Gender::Male => write_u8(out, 1),
        Gender::Female => write_u8(out, 2),
        Gender::Other => write_u8(out, 3),
    }
}

fn read_gender(s: &Vec<u8>, pos: usize) -> (r: Option<(Gender, usize)>)
    ensures
        match r {
            Some((g, p)) => pos <= p <= s@.len() && s@.subrange(pos as int, p as int)
                == enc_gender(g) && dec_gender(s@, pos as int) == Some((g, p as int)),
            None => dec_gender(s@, pos as int) is None,
        },
{
    match read_u8(s, pos) {
        Some((b, p)) => {
            proof {
                lemma_u8_sound(s@, pos as int);
            }
            if b == 0 {
                Some((Gender::Unspecified, p))
            } else if b == 1 {
                Some((Gender::Male, p))
            } else if b == 2 {
                Some((Gender::Female, p))
            } else if b == 3 {
                Some((Gender::Other, p))
            } else {
                None
            }
        },
        None => None,
    }
}

pub open spec fn enc_lifetime(l: Lifetime) -> Seq<u8> {
    match l {
        Lifetime::Active { duration } => enc_u8(0) + enc_u32(duration),
        Lifetime::Constant => enc_u8(1),
    }
}

fn write_lifetime(out: &mut Vec<u8>, l: Lifetime)
    ensures
        final(out)@ == old(out)@ + enc_lifetime(l),
{
    match l {
        Lifetime::Active { duration } => {
            write_u8(out, 0);
            write_u32(out, duration);
        },
        Lifetime::Constant => write_u8(out, 1),
    }
}

fn read_lifetime(s: &Vec<u8>, pos: usize) -> (r: Option<(Lifetime, usize)>)
    ensures
        match r {
            Some((l, p)) => pos <= p <= s@.len() && s@.subrange(pos as int, p as int)
                == enc_lifetime(l) && dec_lifetime(s@, pos as int) == Some((l, p as int)),
            None => dec_lifetime(s@, pos as int) is None,
        },
{
    match read_u8(s, pos) {
        Some((b, p1)) => {
            proof {
                lemma_u8_sound(s@, pos as int);
            }
            if b == 0 {
                match read_u32(s, p1) {
                    Some((duration, p2)) => {
                        proof {
                            lemma_u32_sound(s@, p1 as int);
                            lemma_subrange_join(s@, pos as int, p1 as int, p2 as int);
                        }
                        Some((Lifetime::Active { duration }, p2))
                    },
                    None => None,
                }
            } else if b == 1 {
                Some((Lifetime::Constant, p1))
            } else {
                None
            }
        },
        None => None,
    }
}

pub open spec fn enc_modifier(m: Modifier) -> Seq<u8> {
    (match m.expression {
        ModifierExpression::Add(v) => enc_u8(0) + enc_i64(v),
        ModifierExpression::Multiply(v) => enc_u8(1) + enc_u64(v),
    }) + enc_lifetime(m.lifetime)
}

fn write_modifier(out: &mut Vec<u8>, m: Modifier)
    ensures
        final(out)@ == old(out)@ + enc_modifier(m),
{
    match m.expression {
        ModifierExpression::Add(v) => {
            write_u8(out, 0);
            write_i64(out, v);
        },
        ModifierExpression::Multiply(v) => {
            write_u8(out, 1);
            write_u64(out, v);
        },
    }
    write_lifetime(out, m.lifetime);
    proof {
        assert(final(out)@ =~= old(out)@ + enc_modifier(m));
    }
}

fn read_modifier(s: &Vec<u8>, pos: usize) -> (r: Option<(Modifier, usize)>)
    ensures
        match r {
            Some((m, p)) => pos <= p <= s@.len() && s@.subrange(pos as int, p as int)
                == enc_modifier(m) && dec_modifier(s@, pos as int) == Some((m, p as int)),
            None => dec_modifier(s@, pos as int) is None,
        },
{
    match read_u8(s, pos) {
        Some((b, p1)) => {
            proof {
                lemma_u8_sound(s@, pos as int);
            }
            let expression = if b == 0 {
                match read_i64(s, p1) {
                    Some((v, p2)) => Some((ModifierExpression::Add(v), p2)),
                    None => None,
                }
            } else if b == 1 {
                match read_u64(s, p1) {
                    Some((v, p2)) => {
                        proof {
                            lemma_u64_sound(s@, p1 as int);
                        }
                        Some((ModifierExpression::Multiply(v), p2))
                    },
                    None => None,
                }
            } else {
                None
            };
            match expression {
                Some((expression, p2)) => match read_lifetime(s, p2) {
                    Some((lifetime, p3)) => {
                        proof {
                            lemma_subrange_join(s@, pos as int, p1 as int, p2 as int);
                            lemma_subrange_join(s@, pos as int, p2 as int, p3 as int);
                        }
                        Some((Modifier { expression, lifetime }, p3))
                    },
                    None => None,
                },
                None => None,
            }
        },
        None => None,
    }
}

pub open spec fn enc_dot(d: DOT) -> Seq<u8> {
    enc_aspect(d.aspect) + enc_u64(d.damage_value) + enc_lifetime(d.lifetime)
}

fn write_dot(out: &mut Vec<u8>, d: DOT)
    ensures
        final(out)@ == old(out)@ + enc_dot(d),
{
    write_aspect(out, d.aspect);
    write_u64(out, d.damage_value);
    write_lifetime(out, d.lifetime);
}

fn read_dot(s: &Vec<u8>, pos: usize) -> (r: Option<(DOT, usize)>)
    ensures
        match r {
            Some((d, p)) => pos <= p <= s@.len() && s@.subrange(pos as int, p as int) == enc_dot(
                d,
            ) && dec_dot(s@, pos as int) == Some((d, p as int)),
            None => dec_dot(s@, pos as int) is None,
        },
{
    match read_aspect(s, pos) {
        Some((aspect, p1)) => match read_u64(s, p1) {
            Some((damage_value, p2)) => match read_lifetime(s, p2) {
                Some((lifetime, p3)) => {
                    proof {
                        lemma_u64_sound(s@, p1 as int);
                        lemma_subrange_join(s@, pos as int, p1 as int, p2 as int);
                        lemma_subrange_join(s@, pos as int, p2 as int, p3 as int);
                    }
                    Some((DOT { aspect, damage_value, lifetime }, p3))
                },
                None => None,
            },
            None => None,
        },
        None => None,
    }
}

/// An optional content index: one presence byte, then the index.
pub open spec fn enc_opt_index(o: Option<u64>) -> Seq<u8> {
    match o {
        Some(v) => enc_u8(1) + enc_u64(v),
        None => enc_u8(0),
    }
}

fn write_opt_index(out: &mut Vec<u8>, o: Option<u64>)
    ensures
        final(out)@ == old(out)@ + enc_opt_index(o),
{
    match o {
        Some(v) => {
            write_u8(out, 1);
            write_u64(out, v);
        },
        None => write_u8(out, 0),
    }
}

fn read_opt_index(s: &Vec<u8>, pos: usize) -> (r: Option<(Option<u64>, usize)>)
    ensures
        match r {
            Some((o, p)) => pos <= p <= s@.len() && s@.subrange(pos as int, p as int)
                == enc_opt_index(o) && dec_opt_index(s@, pos as int) == Some((o, p as int)),
            None => dec_opt_index(s@, pos as int) is None,
        },
{
    match read_u8(s, pos) {
        Some((b, p1)) => {
            proof {
                lemma_u8_sound(s@, pos as int);
            }
            if b == 0 {
                Some((None, p1))
            } else if b == 1 {
                match read_u64(s, p1) {
                    Some((v, p2)) => {
                        proof {
                            lemma_u64_sound(s@, p1 as int);
                            lemma_subrange_join(s@, pos as int, p1 as int, p2 as int);
                        }
                        Some((Some(v), p2))
                    },
                    None => None,
                }
            } else {
                None
            }
        },
        None => None,
    }
}

/// An inventory item: one kind byte, then the content index.
pub open spec fn enc_item(i: Item) -> Seq<u8> {
    match i {
        Item::Bodywear(id) => enc_u8(0) + enc_u64(id.0 as u64),
        Item::Consumable(id) => enc_u8(1) + enc_u64(id.0 as u64),
        Item::Footwear(id) => enc_u8(2) + enc_u64(id.0 as u64),
        Item::Handwear(id) => enc_u8(3) + enc_u64(id.0 as u64),
        Item::Headwear(id) => enc_u8(4) + enc_u64(id.0 as u64),
        Item::Legwear(id) => enc_u8(5) + enc_u64(id.0 as u64),
        Item::Weapon(id) => enc_u8(6) + enc_u64(id.0 as u64),
    }
}

fn write_item(out: &mut Vec<u8>, i: Item)
    ensures
        final(out)@ == old(out)@ + enc_item(i),
{
    match i {
        Item::Bodywear(id) => {
            write_u8(out, 0);
            write_u64(out, id.0 as u64);
        },
        Item::Consumable(id) => {
            write_u8(out, 1);
            write_u64(out, id.0 as u64);
        },
        Item::Footwear(id) => {
            write_u8(out, 2);
            write_u64(out, id.0 as u64);
        },
        Item::Handwear(id) => {
            write_u8(out, 3);
            write_u64(out, id.0 as u64);
        },
        Item::Headwear(id) => {
            write_u8(out, 4);
            write_u64(out, id.0 as u64);
        },
        Item::Legwear(id) => {
            write_u8(out, 5);
            write_u64(out, id.0 as u64);
        },
        Item::Weapon(id) => {
            write_u8(out, 6);
            write_u64(out, id.0 as u64);
        },
    }
}

fn read_item(s: &Vec<u8>, pos: usize) -> (r: Option<(Item, usize)>)
    ensures
        match r {
            Some((i, p)) => pos <= p <= s@.len() && s@.subrange(pos as int, p as int) == enc_item(
                i,
            ) && dec_item(s@, pos as int) == Some((i, p as int)),
            None => dec_item(s@, pos as int) is None,
        },
{
    match read_u8(s, pos) {
        Some((b, p1)) => {
            if b > 6 {
                return None;
            }
            match read_usize(s, p1) {
                Some((id, p2)) => {
                    proof {
                        lemma_u8_sound(s@, pos as int);
                        lemma_u64_sound(s@, p1 as int);
                        lemma_subrange_join(s@, pos as int, p1 as int, p2 as int);
                    }
                    let item = if b == 0 {
                        Item::Bodywear(crate::item::BodywearIdentifier(id))
                    } else if b == 1 {
                        Item::Consumable(ConsumableIdentifier(id))
                    } else if b == 2 {
                        Item::Footwear(crate::item::FootwearIdentifier(id))
                    } else if b == 3 {
                        Item::Handwear(crate::item::HandwearIdentifier(id))
                    } else if b == 4 {
                        Item::Headwear(crate::item::HeadwearIdentifier(id))
                    } else if b == 5 {
                        Item::Legwear(crate::item::LegwearIdentifier(id))
                    } else {
                        Item::Weapon(crate::item::WeaponIdentifier(id))
                    };
                    Some((item, p2))
                },
                None => None,
            }
        },
        None => None,
    }
}

// --- element lists --------------------------------------------------------------

pub open spec fn enc_skill(id: SkillIdentifier) -> Seq<u8> {
    enc_u64(id.0 as u64)
}

fn write_skill(out: &mut Vec<u8>, id: SkillIdentifier)
    ensures
        final(out)@ == old(out)@ + enc_skill(id),
{
    write_u64(out, id.0 as u64);
}

fn read_skill(s: &Vec<u8>, pos: usize) -> (r: Option<(SkillIdentifier, usize)>)
    ensures
        match r {
            Some((id, p)) => pos <= p <= s@.len() && s@.subrange(pos as int, p as int)
                == enc_skill(id) && dec_skill(s@, pos as int) == Some((id, p as int)),
            None => dec_skill(s@, pos as int) is None,
        },
{
    match read_usize(s, pos) {
        Some((v, p)) => {
            proof {
                lemma_u64_sound(s@, pos as int);
            }
            Some((SkillIdentifier(v), p))
        },
        None => None,
    }
}

pub open spec fn dec_skill_seq(s: Seq<u8>, pos: int, n: int) -> Option<(Seq<SkillIdentifier>, int)>
    decreases n,
{
    if n <= 0 {
        Some((Seq::empty(), pos))
    } else {
        match dec_skill(s, pos) {
            Some((v, p2)) => match dec_skill_seq(s, p2, n - 1) {
                Some((rest, p3)) => Some((seq![v] + rest, p3)),
                None => None,
            },
            None => None,
        }
    }
}

pub open spec fn dec_skill_list(s: Seq<u8>, pos: int) -> Option<(Seq<SkillIdentifier>, int)> {
    match dec_u64(s, pos) {
        Some((n, p)) => if n <= usize::MAX {
            dec_skill_seq(s, p, n as int)
        } else {
            None
        },
        None => None,
    }
}

pub open spec fn enc_skill_seq(vs: Seq<SkillIdentifier>) -> Seq<u8>
    decreases vs.len(),
{
    if vs.len() == 0 {
        Seq::empty()
    } else {
        enc_skill(vs.first()) + enc_skill_seq(vs.drop_first())
    }
}

/// A list: a 64-bit count followed by the elements.
pub open spec fn enc_skill_list(vs: Seq<SkillIdentifier>) -> Seq<u8> {
    enc_u64(vs.len() as u64) + enc_skill_seq(vs)
}

proof fn lemma_enc_skill_seq_push(vs: Seq<SkillIdentifier>, v: SkillIdentifier)
    ensures
        enc_skill_seq(vs.push(v)) == enc_skill_seq(vs) + enc_skill(v),
    decreases vs.len(),
{
    if vs.len() == 0 {
        assert(vs.push(v).first() == v);
        assert(vs.push(v).drop_first() =~= Seq::<SkillIdentifier>::empty());
        assert(enc_skill_seq(vs.push(v)) == enc_skill(v) + enc_skill_seq(Seq::<SkillIdentifier>::empty()));
        assert(enc_skill_seq(vs.push(v)) =~= enc_skill_seq(vs) + enc_skill(v));
    } else {
        assert(vs.push(v).first() == vs.first());
        assert(vs.push(v).drop_first() =~= vs.drop_first().push(v));
        lemma_enc_skill_seq_push(vs.drop_first(), v);
        assert(enc_skill_seq(vs.push(v)) =~= enc_skill_seq(vs) + enc_skill(v));
    }
}

fn write_skill_list(out: &mut Vec<u8>, vs: &Vec<SkillIdentifier>)
    ensures
        final(out)@ == old(out)@ + enc_skill_list(vs@),
{
    write_u64(out, vs.len() as u64);
    let mut i: usize = 0;
    #[verifier::loop_isolation(false)]
    while i < vs.len()
        invariant
            i <= vs@.len(),
            out@ == old(out)@ + enc_u64(vs@.len() as u64) + enc_skill_seq(vs@.subrange(0, i as int)),
        decreases vs@.len() - i,
    {
        write_skill(out, vs[i]);
        proof {
            assert(vs@.subrange(0, i as int + 1) =~= vs@.subrange(0, i as int).push(vs@[i as int]));
            lemma_enc_skill_seq_push(vs@.subrange(0, i as int), vs@[i as int]);
        }
        i = i + 1;
    }
    proof {
        assert(vs@.subrange(0, vs@.len() as int) =~= vs@);
        assert(old(out)@ + enc_u64(vs@.len() as u64) + enc_skill_seq(vs@) =~= old(out)@
            + enc_skill_list(vs@));
    }
}

fn read_skill_list(s: &Vec<u8>, pos: usize) -> (r: Option<(Vec<SkillIdentifier>, usize)>)
    ensures
        match r {
            Some((vs, p)) => pos <= p <= s@.len() && s@.subrange(pos as int, p as int)
                == enc_skill_list(vs@) && dec_skill_list(s@, pos as int) == Some(
                (vs@, p as int),
            ),
            None => dec_skill_list(s@, pos as int) is None,
        },
{
    match read_u64(s, pos) {
        Some((n64, p0)) => {
            if n64 > (usize::MAX as u64) {
                return None;
            }
            let n = n64 as usize;
            proof {
                lemma_u64_sound(s@, pos as int);
            }
            let mut acc: Vec<SkillIdentifier> = Vec::new();
            let mut cur: usize = p0;
            let mut i: usize = 0;
            #[verifier::loop_isolation(false)]
            while i < n
                invariant
                    i <= n,
                    acc@.len() == i,
                    pos <= p0 <= cur <= s@.len(),
                    s@.subrange(pos as int, cur as int) == enc_u64(n as u64) + enc_skill_seq(acc@),
                    match dec_skill_seq(s@, cur as int, n - i) {
                        Some((rest, pend)) => dec_skill_seq(s@, p0 as int, n as int) == Some(
                            (acc@ + rest, pend),
                        ),
                        None => dec_skill_seq(s@, p0 as int, n as int) is None,
                    },
                decreases n - i,
            {
                match read_skill(s, cur) {
                    Some((v, p2)) => {
                        proof {
                            lemma_subrange_join(s@, pos as int, cur as int, p2 as int);
                            lemma_enc_skill_seq_push(acc@, v);
                            assert(enc_u64(n as u64) + enc_skill_seq(acc@) + enc_skill(v)
                                =~= enc_u64(n as u64) + enc_skill_seq(acc@.push(v)));
                        }
                        acc.push(v);
                        proof {
                            match dec_skill_seq(s@, p2 as int, n - i - 1) {
                                Some((rest2, pend)) => {
                                    assert(acc@ + rest2 =~= acc@.drop_last() + (seq![v] + rest2));
                                },
                                None => (),
                            }
                        }
                        cur = p2;
                    },
                    None => {
                        return None;
                    },
                }
                i = i + 1;
            }
            proof {
                assert(dec_skill_seq(s@, cur as int, 0) == Some(
                    (Seq::<SkillIdentifier>::empty(), cur as int),
                ));
                assert(acc@ + Seq::<SkillIdentifier>::empty() =~= acc@);
            }
            Some((acc, cur))
        },
        None => None,
    }
}

pub open spec fn dec_dot_seq(s: Seq<u8>, pos: int, n: int) -> Option<(Seq<DOT>, int)>
    decreases n,
{
    if n <= 0 {
        Some((Seq::empty(), pos))
    } else {
        match dec_dot(s, pos) {
            Some((v, p2)) => match dec_dot_seq(s, p2, n - 1) {
                Some((rest, p3)) => Some((seq![v] + rest, p3)),
                None => None,
            },
            None => None,
        }
    }
}

pub open spec fn dec_dot_list(s: Seq<u8>, pos: int) -> Option<(Seq<DOT>, int)> {
    match dec_u64(s, pos) {
        Some((n, p)) => if n <= usize::MAX {
            dec_dot_seq(s, p, n as int)
        } else {
            None
        },
        None => None,
    }
}

pub open spec fn enc_dot_seq(vs: Seq<DOT>) -> Seq<u8>
    decreases vs.len(),
{
    if vs.len() == 0 {
        Seq::empty()
    } else {
        enc_dot(vs.first()) + enc_dot_seq(vs.drop_first())
    }
}

/// A list: a 64-bit count followed by the elements.
pub open spec fn enc_dot_list(vs: Seq<DOT>) -> Seq<u8> {
    enc_u64(vs.len() as u64) + enc_dot_seq(vs)
}

proof fn lemma_enc_dot_seq_push(vs: Seq<DOT>, v: DOT)
    ensures
        enc_dot_seq(vs.push(v)) == enc_dot_seq(vs) + enc_dot(v),
    decreases vs.len(),
{
    if vs.len() == 0 {
        assert(vs.push(v).first() == v);
        assert(vs.push(v).drop_first() =~= Seq::<DOT>::empty());
        assert(enc_dot_seq(vs.push(v)) == enc_dot(v) + enc_dot_seq(Seq::<DOT>::empty()));
        assert(enc_dot_seq(vs.push(v)) =~= enc_dot_seq(vs) + enc_dot(v));
    } else {
        assert(vs.push(v).first() == vs.first());
        assert(vs.push(v).drop_first() =~= vs.drop_first().push(v));
        lemma_enc_dot_seq_push(vs.drop_first(), v);
        assert(enc_dot_seq(vs.push(v)) =~= enc_dot_seq(vs) + enc_dot(v));
    }
}

fn write_dot_list(out: &mut Vec<u8>, vs: &Vec<DOT>)
    ensures
        final(out)@ == old(out)@ + enc_dot_list(vs@),
{
    write_u64(out, vs.len() as u64);
    let mut i: usize = 0;
    #[verifier::loop_isolation(false)]
    while i < vs.len()
        invariant
            i <= vs@.len(),
            out@ == old(out)@ + enc_u64(vs@.len() as u64) + enc_dot_seq(vs@.subrange(0, i as int)),
        decreases vs@.len() - i,
    {
        write_dot(out, vs[i]);
        proof {
            assert(vs@.subrange(0, i as int + 1) =~= vs@.subrange(0, i as int).push(vs@[i as int]));
            lemma_enc_dot_seq_push(vs@.subrange(0, i as int), vs@[i as int]);
        }
        i = i + 1;
    }
    proof {
        assert(vs@.subrange(0, vs@.len() as int) =~= vs@);
        assert(old(out)@ + enc_u64(vs@.len() as u64) + enc_dot_seq(vs@) =~= old(out)@
            + enc_dot_list(vs@));
    }
}

fn read_dot_list(s: &Vec<u8>, pos: usize) -> (r: Option<(Vec<DOT>, usize)>)
    ensures
        match r {
            Some((vs, p)) => pos <= p <= s@.len() && s@.subrange(pos as int, p as int)
                == enc_dot_list(vs@) && dec_dot_list(s@, pos as int) == Some(
                (vs@, p as int),
            ),
            None => dec_dot_list(s@, pos as int) is None,
        },
{
    match read_u64(s, pos) {
        Some((n64, p0)) => {
            if n64 > (usize::MAX as u64) {
                return None;
            }
            let n = n64 as usize;
            proof {
                lemma_u64_sound(s@, pos as int);
            }
            let mut acc: Vec<DOT> = Vec::new();
            let mut cur: usize = p0;
            let mut i: usize = 0;
            #[verifier::loop_isolation(false)]
            while i < n
                invariant
                    i <= n,
                    acc@.len() == i,
                    pos <= p0 <= cur <= s@.len(),
                    s@.subrange(pos as int, cur as int) == enc_u64(n as u64) + enc_dot_seq(acc@),
                    match dec_dot_seq(s@, cur as int, n - i) {
                        Some((rest, pend)) => dec_dot_seq(s@, p0 as int, n as int) == Some(
                            (acc@ + rest, pend),
                        ),
                        None => dec_dot_seq(s@, p0 as int, n as int) is None,
                    },
                decreases n - i,
            {
                match read_dot(s, cur) {
                    Some((v, p2)) => {
                        proof {
                            lemma_subrange_join(s@, pos as int, cur as int, p2 as int);
                            lemma_enc_dot_seq_push(acc@, v);
                            assert(enc_u64(n as u64) + enc_dot_seq(acc@) + enc_dot(v)
                                =~= enc_u64(n as u64) + enc_dot_seq(acc@.push(v)));
                        }
                        acc.push(v);
                        proof {
                            match dec_dot_seq(s@, p2 as int, n - i - 1) {
                                Some((rest2, pend)) => {
                                    assert(acc@ + rest2 =~= acc@.drop_last() + (seq![v] + rest2));
                                },
                                None => (),
                            }
                        }
                        cur = p2;
                    },
                    None => {
                        return None;
                    },
                }
                i = i + 1;
            }
            proof {
                assert(dec_dot_seq(s@, cur as int, 0) == Some(
                    (Seq::<DOT>::empty(), cur as int),
                ));
                assert(acc@ + Seq::<DOT>::empty() =~= acc@);
            }
            Some((acc, cur))
        },
        None => None,
    }
}

pub open spec fn dec_modifier_seq(s: Seq<u8>, pos: int, n: int) -> Option<(Seq<Modifier>, int)>
    decreases n,
{
    if n <= 0 {
        Some((Seq::empty(), pos))
    } else {
        match dec_modifier(s, pos) {
            Some((v, p2)) => match dec_modifier_seq(s, p2, n - 1) {
                Some((rest, p3)) => Some((seq![v] + rest, p3)),
                None => None,
            },
            None => None,
        }
    }
}

pub open spec fn dec_modifier_list(s: Seq<u8>, pos: int) -> Option<(Seq<Modifier>, int)> {
    match dec_u64(s, pos) {
        Some((n, p)) => if n <= usize::MAX {
            dec_modifier_seq(s, p, n as int)
        } else {
            None
        },
        None => None,
    }
}

pub open spec fn enc_modifier_seq(vs: Seq<Modifier>) -> Seq<u8>
    decreases vs.len(),
{
    if vs.len() == 0 {
        Seq::empty()
    } else {
        enc_modifier(vs.first()) + enc_modifier_seq(vs.drop_first())
    }
}

/// A list: a 64-bit count followed by the elements.
pub open spec fn enc_modifier_list(vs: Seq<Modifier>) -> Seq<u8> {
    enc_u64(vs.len() as u64) + enc_modifier_seq(vs)
}

proof fn lemma_enc_modifier_seq_push(vs: Seq<Modifier>, v: Modifier)
    ensures
        enc_modifier_seq(vs.push(v)) == enc_modifier_seq(vs) + enc_modifier(v),
    decreases vs.len(),
{
    if vs.len() == 0 {
        assert(vs.push(v).first() == v);
        assert(vs.push(v).drop_first() =~= Seq::<Modifier>::empty());
        assert(enc_modifier_seq(vs.push(v)) == enc_modifier(v) + enc_modifier_seq(Seq::<Modifier>::empty()));
        assert(enc_modifier_seq(vs.push(v)) =~= enc_modifier_seq(vs) + enc_modifier(v));
    } else {
        assert(vs.push(v).first() == vs.first());
        assert(vs.push(v).drop_first() =~= vs.drop_first().push(v));
        lemma_enc_modifier_seq_push(vs.drop_first(), v);
        assert(enc_modifier_seq(vs.push(v)) =~= enc_modifier_seq(vs) + enc_modifier(v));
    }
}

fn write_modifier_list(out: &mut Vec<u8>, vs: &Vec<Modifier>)
    ensures
        final(out)@ == old(out)@ + enc_modifier_list(vs@),
{
    write_u64(out, vs.len() as u64);
    let mut i: usize = 0;
    #[verifier::loop_isolation(false)]
    while i < vs.len()
        invariant
            i <= vs@.len(),
            out@ == old(out)@ + enc_u64(vs@.len() as u64) + enc_modifier_seq(vs@.subrange(0, i as int)),
        decreases vs@.len() - i,
    {
        write_modifier(out, vs[i]);
        proof {
            assert(vs@.subrange(0, i as int + 1) =~= vs@.subrange(0, i as int).push(vs@[i as int]));
            lemma_enc_modifier_seq_push(vs@.subrange(0, i as int), vs@[i as int]);
        }
        i = i + 1;
    }
    proof {
        assert(vs@.subrange(0, vs@.len() as int) =~= vs@);
        assert(old(out)@ + enc_u64(vs@.len() as u64) + enc_modifier_seq(vs@) =~= old(out)@
            + enc_modifier_list(vs@));
    }
}

fn read_modifier_list(s: &Vec<u8>, pos: usize) -> (r: Option<(Vec<Modifier>, usize)>)
    ensures
        match r {
            Some((vs, p)) => pos <= p <= s@.len() && s@.subrange(pos as int, p as int)
                == enc_modifier_list(vs@) && dec_modifier_list(s@, pos as int) == Some(
                (vs@, p as int),
            ),
            None => dec_modifier_list(s@, pos as int) is None,
        },
{
    match read_u64(s, pos) {
        Some((n64, p0)) => {
            if n64 > (usize::MAX as u64) {
                return None;
            }
            let n = n64 as usize;
            proof {
                lemma_u64_sound(s@, pos as int);
            }
            let mut acc: Vec<Modifier> = Vec::new();
            let mut cur: usize = p0;
            let mut i: usize = 0;
            #[verifier::loop_isolation(false)]
            while i < n
                invariant
                    i <= n,
                    acc@.len() == i,
                    pos <= p0 <= cur <= s@.len(),
                    s@.subrange(pos as int, cur as int) == enc_u64(n as u64) + enc_modifier_seq(acc@),
                    match dec_modifier_seq(s@, cur as int, n - i) {
                        Some((rest, pend)) => dec_modifier_seq(s@, p0 as int, n as int) == Some(
                            (acc@ + rest, pend),
                        ),
                        None => dec_modifier_seq(s@, p0 as int, n as int) is None,
                    },
                decreases n - i,
            {
                match read_modifier(s, cur) {
                    Some((v, p2)) => {
                        proof {
                            lemma_subrange_join(s@, pos as int, cur as int, p2 as int);
                            lemma_enc_modifier_seq_push(acc@, v);
                            assert(enc_u64(n as u64) + enc_modifier_seq(acc@) + enc_modifier(v)
                                =~= enc_u64(n as u64) + enc_modifier_seq(acc@.push(v)));
                        }
                        acc.push(v);
                        proof {
                            match dec_modifier_seq(s@, p2 as int, n - i - 1) {
                                Some((rest2, pend)) => {
                                    assert(acc@ + rest2 =~= acc@.drop_last() + (seq![v] + rest2));
                                },
                                None => (),
                            }
                        }
                        cur = p2;
                    },
                    None => {
                        return None;
                    },
                }
                i = i + 1;
            }
            proof {
                assert(dec_modifier_seq(s@, cur as int, 0) == Some(
                    (Seq::<Modifier>::empty(), cur as int),
                ));
                assert(acc@ + Seq::<Modifier>::empty() =~= acc@);
            }
            Some((acc, cur))
        },
        None => None,
    }
}

pub open spec fn dec_item_seq(s: Seq<u8>, pos: int, n: int) -> Option<(Seq<Item>, int)>
    decreases n,
{
    if n <= 0 {
        Some((Seq::empty(), pos))
    } else {
        match dec_item(s, pos) {
            Some((v, p2)) => match dec_item_seq(s, p2, n - 1) {
                Some((rest, p3)) => Some((seq![v] + rest, p3)),
                None => None,
            },
            None => None,
        }
    }
}

pub open spec fn dec_item_list(s: Seq<u8>, pos: int) -> Option<(Seq<Item>, int)> {
    match dec_u64(s, pos) {
        Some((n, p)) => if n <= usize::MAX {
            dec_item_seq(s, p, n as int)
        } else {
            None
        },
        None => None,
    }
}

pub open spec fn enc_item_seq(vs: Seq<Item>) -> Seq<u8>
    decreases vs.len(),
{
    if vs.len() == 0 {
        Seq::empty()
    } else {
        enc_item(vs.first()) + enc_item_seq(vs.drop_first())
    }
}

/// A list: a 64-bit count followed by the elements.
pub open spec fn enc_item_list(vs: Seq<Item>) -> Seq<u8> {
    enc_u64(vs.len() as u64) + enc_item_seq(vs)
}

proof fn lemma_enc_item_seq_push(vs: Seq<Item>, v: Item)
    ensures
        enc_item_seq(vs.push(v)) == enc_item_seq(vs) + enc_item(v),
    decreases vs.len(),
{
    if vs.len() == 0 {
        assert(vs.push(v).first() == v);
        assert(vs.push(v).drop_first() =~= Seq::<Item>::empty());
        assert(enc_item_seq(vs.push(v)) == enc_item(v) + enc_item_seq(Seq::<Item>::empty()));
        assert(enc_item_seq(vs.push(v)) =~= enc_item_seq(vs) + enc_item(v));
    } else {
        assert(vs.push(v).first() == vs.first());
        assert(vs.push(v).drop_first() =~= vs.drop_first().push(v));
        lemma_enc_item_seq_push(vs.drop_first(), v);
        assert(enc_item_seq(vs.push(v)) =~= enc_item_seq(vs) + enc_item(v));
    }
}

fn write_item_list(out: &mut Vec<u8>, vs: &Vec<Item>)
    ensures
        final(out)@ == old(out)@ + enc_item_list(vs@),
{
    write_u64(out, vs.len() as u64);
    let mut i: usize = 0;
    #[verifier::loop_isolation(false)]
    while i < vs.len()
        invariant
            i <= vs@.len(),
            out@ == old(out)@ + enc_u64(vs@.len() as u64) + enc_item_seq(vs@.subrange(0, i as int)),
        decreases vs@.len() - i,
    {
        write_item(out, vs[i]);
        proof {
            assert(vs@.subrange(0, i as int + 1) =~= vs@.subrange(0, i as int).push(vs@[i as int]));
            lemma_enc_item_seq_push(vs@.subrange(0, i as int), vs@[i as int]);
        }
        i = i + 1;
    }
    proof {
        assert(vs@.subrange(0, vs@.len() as int) =~= vs@);
        assert(old(out)@ + enc_u64(vs@.len() as u64) + enc_item_seq(vs@) =~= old(out)@
            + enc_item_list(vs@));
    }
}

fn read_item_list(s: &Vec<u8>, pos: usize) -> (r: Option<(Vec<Item>, usize)>)
    ensures
        match r {
            Some((vs, p)) => pos <= p <= s@.len() && s@.subrange(pos as int, p as int)
                == enc_item_list(vs@) && dec_item_list(s@, pos as int) == Some(
                (vs@, p as int),
            ),
            None => dec_item_list(s@, pos as int) is None,
        },
{
    match read_u64(s, pos) {
        Some((n64, p0)) => {
            if n64 > (usize::MAX as u64) {
                return None;
            }
            let n = n64 as usize;
            proof {
                lemma_u64_sound(s@, pos as int);
            }
            let mut acc: Vec<Item> = Vec::new();
            let mut cur: usize = p0;
            let mut i: usize = 0;
            #[verifier::loop_isolation(false)]
            while i < n
                invariant
                    i <= n,
                    acc@.len() == i,
                    pos <= p0 <= cur <= s@.len(),
                    s@.subrange(pos as int, cur as int) == enc_u64(n as u64) + enc_item_seq(acc@),
                    match dec_item_seq(s@, cur as int, n - i) {
                        Some((rest, pend)) => dec_item_seq(s@, p0 as int, n as int) == Some(
                            (acc@ + rest, pend),
                        ),
                        None => dec_item_seq(s@, p0 as int, n as int) is None,
                    },
                decreases n - i,
            {
                match read_item(s, cur) {
                    Some((v, p2)) => {
                        proof {
                            lemma_subrange_join(s@, pos as int, cur as int, p2 as int);
                            lemma_enc_item_seq_push(acc@, v);
                            assert(enc_u64(n as u64) + enc_item_seq(acc@) + enc_item(v)
                                =~= enc_u64(n as u64) + enc_item_seq(acc@.push(v)));
                        }
                        acc.push(v);
                        proof {
                            match dec_item_seq(s@, p2 as int, n - i - 1) {
                                Some((rest2, pend)) => {
                                    assert(acc@ + rest2 =~= acc@.drop_last() + (seq![v] + rest2));
                                },
                                None => (),
                            }
                        }
                        cur = p2;
                    },
                    None => {
                        return None;
                    },
                }
                i = i + 1;
            }
            proof {
                assert(dec_item_seq(s@, cur as int, 0) == Some(
                    (Seq::<Item>::empty(), cur as int),
                ));
                assert(acc@ + Seq::<Item>::empty() =~= acc@);
            }
            Some((acc, cur))
        },
        None => None,
    }
}

// --- combatants -----------------------------------------------------------------

pub open spec fn bodywear_index(o: Option<crate::item::BodywearIdentifier>) -> Option<u64> {
    match o {
        Some(id) => Some(id.0 as u64),
        None => None,
    }
}

pub open spec fn footwear_index(o: Option<crate::item::FootwearIdentifier>) -> Option<u64> {
    match o {
        Some(id) => Some(id.0 as u64),
        None => None,
    }
}

pub open spec fn handwear_index(o: Option<crate::item::HandwearIdentifier>) -> Option<u64> {
    match o {
        Some(id) => Some(id.0 as u64),
        None => None,
    }
}

pub open spec fn headwear_index(o: Option<crate::item::HeadwearIdentifier>) -> Option<u64> {
    match o {
        Some(id) => Some(id.0 as u64),
        None => None,
    }
}

pub open spec fn legwear_index(o: Option<crate::item::LegwearIdentifier>) -> Option<u64> {
    match o {
        Some(id) => Some(id.0 as u64),
        None => None,
    }
}

pub open spec fn weapon_index(o: Option<crate::item::WeaponIdentifier>) -> Option<u64> {
    match o {
        Some(id) => Some(id.0 as u64),
        None => None,
    }
}

// --- spec-level decoders for combatants, parties and the state ----------------

pub open spec fn dec_identity(s: Seq<u8>, pos: int) -> Option<
    ((Seq<char>, Gender, Seq<SkillIdentifier>), int),
> {
    match dec_string(s, pos) {
        Some((name, p1)) => match dec_gender(s, p1) {
            Some((gender, p2)) => match dec_skill_list(s, p2) {
                Some((skills, p3)) => Some(((name, gender, skills), p3)),
                None => None,
            },
            None => None,
        },
        None => None,
    }
}

pub open spec fn dec_attrs(s: Seq<u8>, pos: int) -> Option<
    ((u64, u64, u64, u64, u64, u64, u64), int),
> {
    match dec_u64(s, pos) {
        Some((a, p1)) => match dec_u64(s, p1) {
            Some((d, p2)) => match dec_u64(s, p2) {
                Some((i, p3)) => match dec_u64(s, p3) {
                    Some((m, p4)) => match dec_u64(s, p4) {
                        Some((st, p5)) => match dec_u64(s, p5) {
                            Some((vg, p6)) => match dec_u64(s, p6) {
                                Some((vt, p7)) => Some(((a, d, i, m, st, vg, vt), p7)),
                                None => None,
                            },
                            None => None,
                        },
                        None => None,
                    },
                    None => None,
                },
                None => None,
            },
            None => None,
        },
        None => None,
    }
}

pub open spec fn dec_equipment(s: Seq<u8>, pos: int) -> Option<
    ((Option<u64>, Option<u64>, Option<u64>, Option<u64>, Option<u64>, Option<u64>), int),
> {
    match dec_opt_index(s, pos) {
        Some((bw, p1)) => match dec_opt_index(s, p1) {
            Some((fw, p2)) => match dec_opt_index(s, p2) {
                Some((hw, p3)) => match dec_opt_index(s, p3) {
                    Some((hd, p4)) => match dec_opt_index(s, p4) {
                        Some((lw, p5)) => match dec_opt_index(s, p5) {
                            Some((wp, p6)) => Some(((bw, fw, hw, hd, lw, wp), p6)),
                            None => None,
                        },
                        None => None,
                    },
                    None => None,
                },
                None => None,
            },
            None => None,
        },
        None => None,
    }
}

pub open spec fn dec_status(s: Seq<u8>, pos: int) -> Option<
    (
        (
            u64,
            u64,
            Seq<DOT>,
            Seq<Modifier>,
            Seq<Modifier>,
            Seq<Modifier>,
            Seq<Modifier>,
            Seq<Modifier>,
            Seq<Modifier>,
            Seq<Modifier>,
        ),
        int,
    ),
> {
    match dec_u64(s, pos) {
        Some((hp, p1)) => match dec_u64(s, p1) {
            Some((fatigue, p2)) => match dec_dot_list(s, p2) {
                Some((dots, p3)) => match dec_modifier_list(s, p3) {
                    Some((m1, p4)) => match dec_modifier_list(s, p4) {
                        Some((m2, p5)) => match dec_modifier_list(s, p5) {
                            Some((m3, p6)) => match dec_modifier_list(s, p6) {
                                Some((m4, p7)) => match dec_modifier_list(s, p7) {
                                    Some((m5, p8)) => match dec_modifier_list(s, p8) {
                                        Some((m6, p9)) => match dec_modifier_list(s, p9) {
                                            Some((m7, p10)) => Some(
                                                (
                                                    (
                                                        hp,
                                                        fatigue,
                                                        dots,
                                                        m1,
                                                        m2,
                                                        m3,
                                                        m4,
                                                        m5,
                                                        m6,
                                                        m7,
                                                    ),
                                                    p10,
                                                ),
                                            ),
                                            None => None,
                                        },
                                        None => None,
                                    },
                                    None => None,
                                },
                                None => None,
                            },
                            None => None,
                        },
                        None => None,
                    },
                    None => None,
                },
                None => None,
            },
            None => None,
        },
        None => None,
    }
}

/// A transmitted equipment index, checked against the platform's index
/// type.
pub open spec fn dec_slot_index(o: Option<u64>) -> Option<Option<usize>> {
    match o {
        Some(v) => if v <= usize::MAX {
            Some(Some(v as usize))
        } else {
            None
        },
        None => Some(None),
    }
}

pub open spec fn dec_combatant(s: Seq<u8>, pos: int) -> Option<
    (crate::combatant::CombatantView, int),
> {
    match dec_identity(s, pos) {
        Some(((name, gender, skills), p1)) => match dec_attrs(s, p1) {
            Some(((agility, dexterity, intelligence, mind, strength, vigor, vitality), p2)) => match dec_equipment(
                s,
                p2,
            ) {
                Some(((bw, fw, hw, hd, lw, wp), p3)) => match dec_status(s, p3) {
                    Some(
                        (
                            (
                                hp,
                                fatigue,
                                dots,
                                agility_modifiers,
                                dexterity_modifiers,
                                intelligence_modifiers,
                                mind_modifiers,
                                strength_modifiers,
                                vigor_modifiers,
                                vitality_modifiers,
                            ),
                            p4,
                        ),
                    ) => match dec_slot_index(bw) {
                        Some(bwi) => match dec_slot_index(fw) {
                            Some(fwi) => match dec_slot_index(hw) {
                                Some(hwi) => match dec_slot_index(hd) {
                                    Some(hdi) => match dec_slot_index(lw) {
                                        Some(lwi) => match dec_slot_index(wp) {
                                            Some(wpi) => Some(
                                                (
                                                    crate::combatant::CombatantView {
                                                        name,
                                                        gender,
                                                        skills,
                                                        agility,
                                                        dexterity,
                                                        intelligence,
                                                        mind,
                                                        strength,
                                                        vigor,
                                                        vitality,
                                                        bodywear: match bwi {
                                                            Some(i) => Some(
                                                                crate::item::BodywearIdentifier(i),
                                                            ),
                                                            None => None,
                                                        },
                                                        footwear: match fwi {
                                                            Some(i) => Some(
                                                                crate::item::FootwearIdentifier(i),
                                                            ),
                                                            None => None,
                                                        },
                                                        handwear: match hwi {
                                                            Some(i) => Some(
                                                                crate::item::HandwearIdentifier(i),
                                                            ),
                                                            None => None,
                                                        },
                                                        headwear: match hdi {
                                                            Some(i) => Some(
                                                                crate::item::HeadwearIdentifier(i),
                                                            ),
                                                            None => None,
                                                        },
                                                        legwear: match lwi {
                                                            Some(i) => Some(
                                                                crate::item::LegwearIdentifier(i),
                                                            ),
                                                            None => None,
                                                        },
                                                        weapon: match wpi {
                                                            Some(i) => Some(
                                                                crate::item::WeaponIdentifier(i),
                                                            ),
                                                            None => None,
                                                        },
                                                        hp,
                                                        fatigue,
                                                        dots,
                                                        agility_modifiers,
                                                        dexterity_modifiers,
                                                        intelligence_modifiers,
                                                        mind_modifiers,
                                                        strength_modifiers,
                                                        vigor_modifiers,
                                                        vitality_modifiers,
                                                    },
                                                    p4,
                                                ),
                                            ),
                                            None => None,
                                        },
                                        None => None,
                                    },
                                    None => None,
                                },
                                None => None,
                            },
                            None => None,
                        },
                        None => None,
                    },
                    None => None,
                },
                None => None,
            },
            None => None,
        },
        None => None,
    }
}

/// The identity part of a combatant: name, gender, skill list.
pub open spec fn enc_identity_vals(name: Seq<char>, gender: Gender, skills: Seq<SkillIdentifier>) -> Seq<u8> {
    enc_string(name) + enc_gender(gender) + enc_skill_list(skills)
}

/// The seven base attributes, in the fixed field order.
pub open spec fn enc_attr_vals(
    agility: u64,
    dexterity: u64,
    intelligence: u64,
    mind: u64,
    strength: u64,
    vigor: u64,
    vitality: u64,
) -> Seq<u8> {
    enc_u64(agility) + enc_u64(dexterity) + enc_u64(intelligence) + enc_u64(mind) + enc_u64(
        strength,
    ) + enc_u64(vigor) + enc_u64(vitality)
}

/// The six equipment slots, in the fixed field order.
pub open spec fn enc_equipment_vals(
    bodywear: Option<u64>,
    footwear: Option<u64>,
    handwear: Option<u64>,
    headwear: Option<u64>,
    legwear: Option<u64>,
    weapon: Option<u64>,
) -> Seq<u8> {
    enc_opt_index(bodywear) + enc_opt_index(footwear) + enc_opt_index(handwear) + enc_opt_index(
        headwear,
    ) + enc_opt_index(legwear) + enc_opt_index(weapon)
}

/// Health, fatigue and the attached instance lists.
pub open spec fn enc_status_vals(
    hp: u64,
    fatigue: u64,
    dots: Seq<DOT>,
    agility_modifiers: Seq<Modifier>,
    dexterity_modifiers: Seq<Modifier>,
    intelligence_modifiers: Seq<Modifier>,
    mind_modifiers: Seq<Modifier>,
    strength_modifiers: Seq<Modifier>,
    vigor_modifiers: Seq<Modifier>,
    vitality_modifiers: Seq<Modifier>,
) -> Seq<u8> {
    enc_u64(hp) + enc_u64(fatigue) + enc_dot_list(dots) + enc_modifier_list(agility_modifiers)
        + enc_modifier_list(dexterity_modifiers) + enc_modifier_list(intelligence_modifiers)
        + enc_modifier_list(mind_modifiers) + enc_modifier_list(strength_modifiers)
        + enc_modifier_list(vigor_modifiers) + enc_modifier_list(vitality_modifiers)
}

/// The canonical encoding of one combatant: identity, base attributes,
/// equipment, then health, fatigue and the attached instance lists.
pub open spec fn enc_combatant(c: crate::combatant::CombatantView) -> Seq<u8> {
    enc_identity_vals(c.name, c.gender, c.skills) + enc_attr_vals(
        c.agility,
        c.dexterity,
        c.intelligence,
        c.mind,
        c.strength,
        c.vigor,
        c.vitality,
    ) + enc_equipment_vals(
        bodywear_index(c.bodywear),
        footwear_index(c.footwear),
        handwear_index(c.handwear),
        headwear_index(c.headwear),
        legwear_index(c.legwear),
        weapon_index(c.weapon),
    ) + enc_status_vals(
        c.hp,
        c.fatigue,
        c.dots,
        c.agility_modifiers,
        c.dexterity_modifiers,
        c.intelligence_modifiers,
        c.mind_modifiers,
        c.strength_modifiers,
        c.vigor_modifiers,
        c.vitality_modifiers,
    )
}

proof fn lemma_add_assoc(a: Seq<u8>, b: Seq<u8>, c: Seq<u8>)
    ensures
        (a + b) + c == a + (b + c),
{
    assert((a + b) + c =~= a + (b + c));
}

fn write_identity_group(out: &mut Vec<u8>, c: &crate::combatant::Combatant)
    ensures
        final(out)@ == old(out)@ + enc_identity_vals(c@.name, c@.gender, c@.skills),
{
    let ghost base = out@;
    write_string(out, &c.name);
    write_gender(out, c.gender);
    proof {
        lemma_add_assoc(base, enc_string(c@.name), enc_gender(c@.gender));
    }
    write_skill_list(out, &c.skills);
    proof {
        lemma_add_assoc(base, enc_string(c@.name) + enc_gender(c@.gender), enc_skill_list(c@.skills));
    }
}

fn write_attr_group(out: &mut Vec<u8>, c: &crate::combatant::Combatant)
    ensures
        final(out)@ == old(out)@ + enc_attr_vals(
            c@.agility,
            c@.dexterity,
            c@.intelligence,
            c@.mind,
            c@.strength,
            c@.vigor,
            c@.vitality,
        ),
{
    let ghost base = out@;
    write_u64(out, c.agility);
    write_u64(out, c.dexterity);
    proof {
        lemma_add_assoc(base, enc_u64(c@.agility), enc_u64(c@.dexterity));
    }
    write_u64(out, c.intelligence);
    proof {
        lemma_add_assoc(base, enc_u64(c@.agility) + enc_u64(c@.dexterity), enc_u64(c@.intelligence));
    }
    write_u64(out, c.mind);
    proof {
        lemma_add_assoc(
            base,
            enc_u64(c@.agility) + enc_u64(c@.dexterity) + enc_u64(c@.intelligence),
            enc_u64(c@.mind),
        );
    }
    write_u64(out, c.strength);
    proof {
        lemma_add_assoc(
            base,
            enc_u64(c@.agility) + enc_u64(c@.dexterity) + enc_u64(c@.intelligence) + enc_u64(c@.mind),
            enc_u64(c@.strength),
        );
    }
    write_u64(out, c.vigor);
    proof {
        lemma_add_assoc(
            base,
            enc_u64(c@.agility) + enc_u64(c@.dexterity) + enc_u64(c@.intelligence) + enc_u64(c@.mind)
                + enc_u64(c@.strength),
            enc_u64(c@.vigor),
        );
    }
    write_u64(out, c.vitality);
    proof {
        lemma_add_assoc(
            base,
            enc_u64(c@.agility) + enc_u64(c@.dexterity) + enc_u64(c@.intelligence) + enc_u64(c@.mind)
                + enc_u64(c@.strength) + enc_u64(c@.vigor),
            enc_u64(c@.vitality),
        );
    }
}

fn write_equipment_group(out: &mut Vec<u8>, c: &crate::combatant::Combatant)
    ensures
        final(out)@ == old(out)@ + enc_equipment_vals(
            bodywear_index(c@.bodywear),
            footwear_index(c@.footwear),
            handwear_index(c@.handwear),
            headwear_index(c@.headwear),
            legwear_index(c@.legwear),
            weapon_index(c@.weapon),
        ),
{
    let ghost base = out@;
    let ghost bw = bodywear_index(c@.bodywear);
    let ghost fw = footwear_index(c@.footwear);
    let ghost hw = handwear_index(c@.handwear);
    let ghost hd = headwear_index(c@.headwear);
    let ghost lw = legwear_index(c@.legwear);
    write_opt_index(
        out,
        match c.bodywear {
            Some(id) => Some(id.0 as u64),
            None => None,
        },
    );
    write_opt_index(
        out,
        match c.footwear {
            Some(id) => Some(id.0 as u64),
            None => None,
        },
    );
    proof {
        lemma_add_assoc(base, enc_opt_index(bw), enc_opt_index(fw));
    }
    write_opt_index(
        out,
        match c.handwear {
            Some(id) => Some(id.0 as u64),
            None => None,
        },
    );
    proof {
        lemma_add_assoc(base, enc_opt_index(bw) + enc_opt_index(fw), enc_opt_index(hw));
    }
    write_opt_index(
        out,
        match c.headwear {
            Some(id) => Some(id.0 as u64),
            None => None,
        },
    );
    proof {
        lemma_add_assoc(
            base,
            enc_opt_index(bw) + enc_opt_index(fw) + enc_opt_index(hw),
            enc_opt_index(hd),
        );
    }
    write_opt_index(
        out,
        match c.legwear {
            Some(id) => Some(id.0 as u64),
            None => None,
        },
    );
    proof {
        lemma_add_assoc(
            base,
            enc_opt_index(bw) + enc_opt_index(fw) + enc_opt_index(hw) + enc_opt_index(hd),
            enc_opt_index(lw),
        );
    }
    write_opt_index(
        out,
        match c.weapon {
            Some(id) => Some(id.0 as u64),
            None => None,
        },
    );
    proof {
        lemma_add_assoc(
            base,
            enc_opt_index(bw) + enc_opt_index(fw) + enc_opt_index(hw) + enc_opt_index(hd)
                + enc_opt_index(lw),
            enc_opt_index(weapon_index(c@.weapon)),
        );
    }
}

fn write_status_group(out: &mut Vec<u8>, c: &crate::combatant::Combatant)
    ensures
        final(out)@ == old(out)@ + enc_status_vals(
            c@.hp,
            c@.fatigue,
            c@.dots,
            c@.agility_modifiers,
            c@.dexterity_modifiers,
            c@.intelligence_modifiers,
            c@.mind_modifiers,
            c@.strength_modifiers,
            c@.vigor_modifiers,
            c@.vitality_modifiers,
        ),
{
    let ghost base = out@;
    write_u64(out, c.hp);
    write_u64(out, c.fatigue);
    proof {
        lemma_add_assoc(base, enc_u64(c@.hp), enc_u64(c@.fatigue));
    }
    write_dot_list(out, &c.dots);
    proof {
        lemma_add_assoc(base, enc_u64(c@.hp) + enc_u64(c@.fatigue), enc_dot_list(c@.dots));
    }
    write_modifier_list(out, &c.agility_modifiers);
    proof {
        lemma_add_assoc(
            base,
            enc_u64(c@.hp) + enc_u64(c@.fatigue) + enc_dot_list(c@.dots),
            enc_modifier_list(c@.agility_modifiers),
        );
    }
    write_modifier_list(out, &c.dexterity_modifiers);
    proof {
        lemma_add_assoc(
            base,
            enc_u64(c@.hp) + enc_u64(c@.fatigue) + enc_dot_list(c@.dots) + enc_modifier_list(
                c@.agility_modifiers,
            ),
            enc_modifier_list(c@.dexterity_modifiers),
        );
    }
    write_modifier_list(out, &c.intelligence_modifiers);
    proof {
        lemma_add_assoc(
            base,
            enc_u64(c@.hp) + enc_u64(c@.fatigue) + enc_dot_list(c@.dots) + enc_modifier_list(
                c@.agility_modifiers,
            ) + enc_modifier_list(c@.dexterity_modifiers),
            enc_modifier_list(c@.intelligence_modifiers),
        );
    }
    write_modifier_list(out, &c.mind_modifiers);
    proof {
        lemma_add_assoc(
            base,
            enc_u64(c@.hp) + enc_u64(c@.fatigue) + enc_dot_list(c@.dots) + enc_modifier_list(
                c@.agility_modifiers,
            ) + enc_modifier_list(c@.dexterity_modifiers) + enc_modifier_list(
                c@.intelligence_modifiers,
            ),
            enc_modifier_list(c@.mind_modifiers),
        );
    }
    write_modifier_list(out, &c.strength_modifiers);
    proof {
        lemma_add_assoc(
            base,
            enc_u64(c@.hp) + enc_u64(c@.fatigue) + enc_dot_list(c@.dots) + enc_modifier_list(
                c@.agility_modifiers,
            ) + enc_modifier_list(c@.dexterity_modifiers) + enc_modifier_list(
                c@.intelligence_modifiers,
            ) + enc_modifier_list(c@.mind_modifiers),
            enc_modifier_list(c@.strength_modifiers),
        );
    }
    write_modifier_list(out, &c.vigor_modifiers);
    proof {
        lemma_add_assoc(
            base,
            enc_u64(c@.hp) + enc_u64(c@.fatigue) + enc_dot_list(c@.dots) + enc_modifier_list(
                c@.agility_modifiers,
            ) + enc_modifier_list(c@.dexterity_modifiers) + enc_modifier_list(
                c@.intelligence_modifiers,
            ) + enc_modifier_list(c@.mind_modifiers) + enc_modifier_list(c@.strength_modifiers),
            enc_modifier_list(c@.vigor_modifiers),
        );
    }
    write_modifier_list(out, &c.vitality_modifiers);
    proof {
        lemma_add_assoc(
            base,
            enc_u64(c@.hp) + enc_u64(c@.fatigue) + enc_dot_list(c@.dots) + enc_modifier_list(
                c@.agility_modifiers,
            ) + enc_modifier_list(c@.dexterity_modifiers) + enc_modifier_list(
                c@.intelligence_modifiers,
            ) + enc_modifier_list(c@.mind_modifiers) + enc_modifier_list(c@.strength_modifiers)
                + enc_modifier_list(c@.vigor_modifiers),
            enc_modifier_list(c@.vitality_modifiers),
        );
    }
}

fn write_combatant(out: &mut Vec<u8>, c: &crate::combatant::Combatant)
    ensures
        final(out)@ == old(out)@ + enc_combatant(c@),
{
    let ghost base = out@;
    let ghost g1 = enc_identity_vals(c@.name, c@.gender, c@.skills);
    let ghost g2 = enc_attr_vals(
        c@.agility,
        c@.dexterity,
        c@.intelligence,
        c@.mind,
        c@.strength,
        c@.vigor,
        c@.vitality,
    );
    let ghost g3 = enc_equipment_vals(
        bodywear_index(c@.bodywear),
        footwear_index(c@.footwear),
        handwear_index(c@.handwear),
        headwear_index(c@.headwear),
        legwear_index(c@.legwear),
        weapon_index(c@.weapon),
    );
    let ghost g4 = enc_status_vals(
        c@.hp,
        c@.fatigue,
        c@.dots,
        c@.agility_modifiers,
        c@.dexterity_modifiers,
        c@.intelligence_modifiers,
        c@.mind_modifiers,
        c@.strength_modifiers,
        c@.vigor_modifiers,
        c@.vitality_modifiers,
    );
    write_identity_group(out, c);
    write_attr_group(out, c);
    proof {
        lemma_add_assoc(base, g1, g2);
    }
    write_equipment_group(out, c);
    proof {
        lemma_add_assoc(base, g1 + g2, g3);
    }
    write_status_group(out, c);
    proof {
        lemma_add_assoc(base, g1 + g2 + g3, g4);
    }
}

fn read_identity(s: &Vec<u8>, pos: usize) -> (r: Option<((String, Gender, Vec<SkillIdentifier>), usize)>)
    ensures
        match r {
            Some(((name, gender, skills), p)) => pos <= p <= s@.len() && s@.subrange(
                pos as int,
                p as int,
            ) == enc_identity_vals(name@, gender, skills@) && dec_identity(s@, pos as int)
                == Some(((name@, gender, skills@), p as int)),
            None => dec_identity(s@, pos as int) is None,
        },
{
    match read_string(s, pos) {
        Some((name, p1)) => match read_gender(s, p1) {
            Some((gender, p2)) => match read_skill_list(s, p2) {
                Some((skills, p3)) => {
                    proof {
                        lemma_subrange_join(s@, pos as int, p1 as int, p2 as int);
                        lemma_subrange_join(s@, pos as int, p2 as int, p3 as int);
                    }
                    Some(((name, gender, skills), p3))
                },
                None => None,
            },
            None => None,
        },
        None => None,
    }
}

fn read_attrs(s: &Vec<u8>, pos: usize) -> (r: Option<
    ((u64, u64, u64, u64, u64, u64, u64), usize),
>)
    ensures
        match r {
            Some(((a, d, i, m, st, vg, vt), p)) => pos <= p <= s@.len() && s@.subrange(
                pos as int,
                p as int,
            ) == enc_attr_vals(a, d, i, m, st, vg, vt) && dec_attrs(s@, pos as int) == Some(
                ((a, d, i, m, st, vg, vt), p as int),
            ),
            None => dec_attrs(s@, pos as int) is None,
        },
{
    match read_u64(s, pos) {
        Some((a, p1)) => match read_u64(s, p1) {
            Some((d, p2)) => match read_u64(s, p2) {
                Some((i, p3)) => match read_u64(s, p3) {
                    Some((m, p4)) => match read_u64(s, p4) {
                        Some((st, p5)) => match read_u64(s, p5) {
                            Some((vg, p6)) => match read_u64(s, p6) {
                                Some((vt, p7)) => {
                                    proof {
                                        lemma_u64_sound(s@, pos as int);
                                        lemma_u64_sound(s@, p1 as int);
                                        lemma_u64_sound(s@, p2 as int);
                                        lemma_u64_sound(s@, p3 as int);
                                        lemma_u64_sound(s@, p4 as int);
                                        lemma_u64_sound(s@, p5 as int);
                                        lemma_u64_sound(s@, p6 as int);
                                        lemma_subrange_join(s@, pos as int, p1 as int, p2 as int);
                                        lemma_subrange_join(s@, pos as int, p2 as int, p3 as int);
                                        lemma_subrange_join(s@, pos as int, p3 as int, p4 as int);
                                        lemma_subrange_join(s@, pos as int, p4 as int, p5 as int);
                                        lemma_subrange_join(s@, pos as int, p5 as int, p6 as int);
                                        lemma_subrange_join(s@, pos as int, p6 as int, p7 as int);
                                    }
                                    Some(((a, d, i, m, st, vg, vt), p7))
                                },
                                None => None,
                            },
                            None => None,
                        },
                        None => None,
                    },
                    None => None,
                },
                None => None,
            },
            None => None,
        },
        None => None,
    }
}

fn read_equipment(s: &Vec<u8>, pos: usize) -> (r: Option<
    (
        (
            Option<u64>,
            Option<u64>,
            Option<u64>,
            Option<u64>,
            Option<u64>,
            Option<u64>,
        ),
        usize,
    ),
>)
    ensures
        match r {
            Some(((bw, fw, hw, hd, lw, wp), p)) => pos <= p <= s@.len() && s@.subrange(
                pos as int,
                p as int,
            ) == enc_equipment_vals(bw, fw, hw, hd, lw, wp) && dec_equipment(s@, pos as int)
                == Some(((bw, fw, hw, hd, lw, wp), p as int)),
            None => dec_equipment(s@, pos as int) is None,
        },
{
    match read_opt_index(s, pos) {
        Some((bw, p1)) => match read_opt_index(s, p1) {
            Some((fw, p2)) => match read_opt_index(s, p2) {
                Some((hw, p3)) => match read_opt_index(s, p3) {
                    Some((hd, p4)) => match read_opt_index(s, p4) {
                        Some((lw, p5)) => match read_opt_index(s, p5) {
                            Some((wp, p6)) => {
                                proof {
                                    lemma_subrange_join(s@, pos as int, p1 as int, p2 as int);
                                    lemma_subrange_join(s@, pos as int, p2 as int, p3 as int);
                                    lemma_subrange_join(s@, pos as int, p3 as int, p4 as int);
                                    lemma_subrange_join(s@, pos as int, p4 as int, p5 as int);
                                    lemma_subrange_join(s@, pos as int, p5 as int, p6 as int);
                                }
                                Some(((bw, fw, hw, hd, lw, wp), p6))
                            },
                            None => None,
                        },
                        None => None,
                    },
                    None => None,
                },
                None => None,
            },
            None => None,
        },
        None => None,
    }
}

fn read_status(s: &Vec<u8>, pos: usize) -> (r: Option<
    (
        (
            u64,
            u64,
            Vec<DOT>,
            Vec<Modifier>,
            Vec<Modifier>,
            Vec<Modifier>,
            Vec<Modifier>,
            Vec<Modifier>,
            Vec<Modifier>,
            Vec<Modifier>,
        ),
        usize,
    ),
>)
    ensures
        match r {
            Some(((hp, fatigue, dots, m1, m2, m3, m4, m5, m6, m7), p)) => pos <= p <= s@.len()
                && s@.subrange(pos as int, p as int) == enc_status_vals(
                hp,
                fatigue,
                dots@,
                m1@,
                m2@,
                m3@,
                m4@,
                m5@,
                m6@,
                m7@,
            ) && dec_status(s@, pos as int) == Some(
                ((hp, fatigue, dots@, m1@, m2@, m3@, m4@, m5@, m6@, m7@), p as int),
            ),
            None => dec_status(s@, pos as int) is None,
        },
{
    match read_u64(s, pos) {
        Some((hp, p1)) => match read_u64(s, p1) {
            Some((fatigue, p2)) => match read_dot_list(s, p2) {
                Some((dots, p3)) => match read_modifier_list(s, p3) {
                    Some((m1, p4)) => match read_modifier_list(s, p4) {
                        Some((m2, p5)) => match read_modifier_list(s, p5) {
                            Some((m3, p6)) => match read_modifier_list(s, p6) {
                                Some((m4, p7)) => match read_modifier_list(s, p7) {
                                    Some((m5, p8)) => match read_modifier_list(s, p8) {
                                        Some((m6, p9)) => match read_modifier_list(s, p9) {
                                            Some((m7, p10)) => {
                                                proof {
                                                    lemma_u64_sound(s@, pos as int);
                                                    lemma_u64_sound(s@, p1 as int);
                                                    lemma_subrange_join(s@, pos as int, p1 as int, p2 as int);
                                                    lemma_subrange_join(s@, pos as int, p2 as int, p3 as int);
                                                    lemma_subrange_join(s@, pos as int, p3 as int, p4 as int);
                                                    lemma_subrange_join(s@, pos as int, p4 as int, p5 as int);
                                                    lemma_subrange_join(s@, pos as int, p5 as int, p6 as int);
                                                    lemma_subrange_join(s@, pos as int, p6 as int, p7 as int);
                                                    lemma_subrange_join(s@, pos as int, p7 as int, p8 as int);
                                                    lemma_subrange_join(s@, pos as int, p8 as int, p9 as int);
                                                    lemma_subrange_join(s@, pos as int, p9 as int, p10 as int);
                                                }
                                                Some(
                                                    (
                                                        (
                                                            hp,
                                                            fatigue,
                                                            dots,
                                                            m1,
                                                            m2,
                                                            m3,
                                                            m4,
                                                            m5,
                                                            m6,
                                                            m7,
                                                        ),
                                                        p10,
                                                    ),
                                                )
                                            },
                                            None => None,
                                        },
                                        None => None,
                                    },
                                    None => None,
                                },
                                None => None,
                            },
                            None => None,
                        },
                        None => None,
                    },
                    None => None,
                },
                None => None,
            },
            None => None,
        },
        None => None,
    }
}

fn read_combatant(s: &Vec<u8>, pos: usize) -> (r: Option<(crate::combatant::Combatant, usize)>)
    ensures
        match r {
            Some((c, p)) => pos <= p <= s@.len() && s@.subrange(pos as int, p as int)
                == enc_combatant(c@) && dec_combatant(s@, pos as int) == Some((c@, p as int)),
            None => dec_combatant(s@, pos as int) is None,
        },
{
    let ((name, gender, skills), p1) = match read_identity(s, pos) {
        Some(v) => v,
        None => {
            return None;
        },
    };
    let ((agility, dexterity, intelligence, mind, strength, vigor, vitality), p2) = match read_attrs(
        s,
        p1,
    ) {
        Some(v) => v,
        None => {
            return None;
        },
    };
    let ((bw, fw, hw, hd, lw, wp), p3) = match read_equipment(s, p2) {
        Some(v) => v,
        None => {
            return None;
        },
    };
    let (
        (
            hp,
            fatigue,
            dots,
            agility_modifiers,
            dexterity_modifiers,
            intelligence_modifiers,
            mind_modifiers,
            strength_modifiers,
            vigor_modifiers,
            vitality_modifiers,
        ),
        p4,
    ) = match read_status(s, p3) {
        Some(v) => v,
        None => {
            return None;
        },
    };
    let bodywear = match bw {
        Some(v) => {
            if v > (usize::MAX as u64) {
                return None;
            }
            Some(crate::item::BodywearIdentifier(v as usize))
        },
        None => None,
    };
    let footwear = match fw {
        Some(v) => {
            if v > (usize::MAX as u64) {
                return None;
            }
            Some(crate::item::FootwearIdentifier(v as usize))
        },
        None => None,
    };
    let handwear = match hw {
        Some(v) => {
            if v > (usize::MAX as u64) {
                return None;
            }
            Some(crate::item::HandwearIdentifier(v as usize))
        },
        None => None,
    };
    let headwear = match hd {
        Some(v) => {
            if v > (usize::MAX as u64) {
                return None;
            }
            Some(crate::item::HeadwearIdentifier(v as usize))
        },
        None => None,
    };
    let legwear = match lw {
        Some(v) => {
            if v > (usize::MAX as u64) {
                return None;
            }
            Some(crate::item::LegwearIdentifier(v as usize))
        },
        None => None,
    };
    let weapon = match wp {
        Some(v) => {
            if v > (usize::MAX as u64) {
                return None;
            }
            Some(crate::item::WeaponIdentifier(v as usize))
        },
        None => None,
    };
    proof {
        lemma_subrange_join(s@, pos as int, p1 as int, p2 as int);
        lemma_subrange_join(s@, pos as int, p2 as int, p3 as int);
        lemma_subrange_join(s@, pos as int, p3 as int, p4 as int);
    }
    let combatant = crate::combatant::Combatant {
        name,
        gender,
        skills,
        agility,
        dexterity,
        intelligence,
        mind,
        strength,
        vigor,
        vitality,
        bodywear,
        footwear,
        handwear,
        headwear,
        legwear,
        weapon,
        hp,
        fatigue,
        dots,
        agility_modifiers,
        dexterity_modifiers,
        intelligence_modifiers,
        mind_modifiers,
        strength_modifiers,
        vigor_modifiers,
        vitality_modifiers,
    };
    Some((combatant, p4))
}

// --- parties and the combat state ------------------------------------------------

pub open spec fn dec_member_seq(s: Seq<u8>, pos: int, n: int) -> Option<
    (Seq<crate::combatant::CombatantView>, int),
>
    decreases n,
{
    if n <= 0 {
        Some((Seq::empty(), pos))
    } else {
        match dec_combatant(s, pos) {
            Some((c, p2)) => match dec_member_seq(s, p2, n - 1) {
                Some((rest, p3)) => Some((seq![c] + rest, p3)),
                None => None,
            },
            None => None,
        }
    }
}

pub open spec fn dec_member_list(s: Seq<u8>, pos: int) -> Option<
    (Seq<crate::combatant::CombatantView>, int),
> {
    match dec_u64(s, pos) {
        Some((n, p)) => if n <= usize::MAX {
            dec_member_seq(s, p, n as int)
        } else {
            None
        },
        None => None,
    }
}

pub open spec fn dec_party(s: Seq<u8>, pos: int) -> Option<(crate::party::PartyView, int)> {
    match dec_member_list(s, pos) {
        Some((members, p1)) => match dec_item_list(s, p1) {
            Some((inventory, p2)) => Some(
                (crate::party::PartyView { members, inventory }, p2),
            ),
            None => None,
        },
        None => None,
    }
}

pub open spec fn dec_party_seq(s: Seq<u8>, pos: int, n: int) -> Option<
    (Seq<crate::party::PartyView>, int),
>
    decreases n,
{
    if n <= 0 {
        Some((Seq::empty(), pos))
    } else {
        match dec_party(s, pos) {
            Some((p, p2)) => match dec_party_seq(s, p2, n - 1) {
                Some((rest, p3)) => Some((seq![p] + rest, p3)),
                None => None,
            },
            None => None,
        }
    }
}

pub open spec fn dec_combat_state(s: Seq<u8>, pos: int) -> Option<
    (Seq<crate::party::PartyView>, int),
> {
    match dec_u64(s, pos) {
        Some((n, p)) => if n <= usize::MAX {
            dec_party_seq(s, p, n as int)
        } else {
            None
        },
        None => None,
    }
}

/// Decoding a party payload: the whole payload must be consumed.
pub open spec fn decode_party_payload(s: Seq<u8>) -> Option<crate::party::PartyView> {
    match dec_party(s, 0) {
        Some((p, end)) => if end == s.len() {
            Some(p)
        } else {
            None
        },
        None => None,
    }
}

/// Decoding a combat-state payload: the whole payload must be consumed.
pub open spec fn decode_combat_state_payload(s: Seq<u8>) -> Option<Seq<crate::party::PartyView>> {
    match dec_combat_state(s, 0) {
        Some((stv, end)) => if end == s.len() {
            Some(stv)
        } else {
            None
        },
        None => None,
    }
}

/// Decoding a turn-prompt payload: the whole payload must be consumed.
pub open spec fn decode_take_turn_payload(s: Seq<u8>) -> Option<crate::message::TakeTurn> {
    match dec_target(s, 0) {
        Some((t, end)) => if end == s.len() {
            Some(crate::message::TakeTurn { target: t })
        } else {
            None
        },
        None => None,
    }
}

pub open spec fn enc_member_seq(vs: Seq<crate::combatant::CombatantView>) -> Seq<u8>
    decreases vs.len(),
{
    if vs.len() == 0 {
        Seq::empty()
    } else {
        enc_combatant(vs.first()) + enc_member_seq(vs.drop_first())
    }
}

pub open spec fn enc_member_list(vs: Seq<crate::combatant::CombatantView>) -> Seq<u8> {
    enc_u64(vs.len() as u64) + enc_member_seq(vs)
}

#[verifier::rlimit(100)]
proof fn lemma_enc_member_seq_push(
    vs: Seq<crate::combatant::CombatantView>,
    v: crate::combatant::CombatantView,
)
    ensures
        enc_member_seq(vs.push(v)) == enc_member_seq(vs) + enc_combatant(v),
    decreases vs.len(),
{
    if vs.len() == 0 {
        assert(vs.push(v).first() == v);
        assert(vs.push(v).drop_first() =~= Seq::<crate::combatant::CombatantView>::empty());
        assert(enc_member_seq(vs.push(v)) == enc_combatant(v) + enc_member_seq(
            Seq::<crate::combatant::CombatantView>::empty(),
        ));
        assert(enc_member_seq(vs.push(v)) =~= enc_member_seq(vs) + enc_combatant(v));
    } else {
        assert(vs.push(v).first() == vs.first());
        assert(vs.push(v).drop_first() =~= vs.drop_first().push(v));
        lemma_enc_member_seq_push(vs.drop_first(), v);
        assert(enc_member_seq(vs.push(v)) =~= enc_member_seq(vs) + enc_combatant(v));
    }
}

fn write_member_list(out: &mut Vec<u8>, vs: &Vec<crate::combatant::Combatant>)
    ensures
        final(out)@ == old(out)@ + enc_member_list(
            vs@.map_values(|x: crate::combatant::Combatant| x@),
        ),
{
    write_u64(out, vs.len() as u64);
    let ghost full = vs@.map_values(|x: crate::combatant::Combatant| x@);
    let mut i: usize = 0;
    #[verifier::loop_isolation(false)]
    while i < vs.len()
        invariant
            i <= vs@.len(),
            out@ == old(out)@ + enc_u64(full.len() as u64) + enc_member_seq(
                full.subrange(0, i as int),
            ),
        decreases vs@.len() - i,
    {
        write_combatant(out, &vs[i]);
        proof {
            assert(full.subrange(0, i as int + 1) =~= full.subrange(0, i as int).push(
                full[i as int],
            ));
            assert(full[i as int] == vs@[i as int]@);
            lemma_enc_member_seq_push(full.subrange(0, i as int), full[i as int]);
            lemma_add_assoc(
                old(out)@ + enc_u64(full.len() as u64),
                enc_member_seq(full.subrange(0, i as int)),
                enc_combatant(full[i as int]),
            );
        }
        i = i + 1;
    }
    proof {
        assert(full.subrange(0, full.len() as int) =~= full);
        lemma_add_assoc(old(out)@, enc_u64(full.len() as u64), enc_member_seq(full));
    }
}

#[verifier::rlimit(100)]
fn read_member_list(s: &Vec<u8>, pos: usize) -> (r: Option<
    (Vec<crate::combatant::Combatant>, usize),
>)
    ensures
        match r {
            Some((vs, p)) => pos <= p <= s@.len() && s@.subrange(pos as int, p as int)
                == enc_member_list(vs@.map_values(|x: crate::combatant::Combatant| x@))
                && dec_member_list(s@, pos as int) == Some(
                (vs@.map_values(|x: crate::combatant::Combatant| x@), p as int),
            ),
            None => dec_member_list(s@, pos as int) is None,
        },
{
    match read_u64(s, pos) {
        Some((n64, p0)) => {
            if n64 > (usize::MAX as u64) {
                return None;
            }
            let n = n64 as usize;
            proof {
                lemma_u64_sound(s@, pos as int);
            }
            let mut acc: Vec<crate::combatant::Combatant> = Vec::new();
            let mut cur: usize = p0;
            let mut i: usize = 0;
            #[verifier::loop_isolation(false)]
            while i < n
                invariant
                    i <= n,
                    acc@.len() == i,
                    pos <= p0 <= cur <= s@.len(),
                    s@.subrange(pos as int, cur as int) == enc_u64(n as u64) + enc_member_seq(
                        acc@.map_values(|x: crate::combatant::Combatant| x@),
                    ),
                    match dec_member_seq(s@, cur as int, n - i) {
                        Some((rest, pend)) => dec_member_seq(s@, p0 as int, n as int) == Some(
                            (acc@.map_values(|x: crate::combatant::Combatant| x@) + rest, pend),
                        ),
                        None => dec_member_seq(s@, p0 as int, n as int) is None,
                    },
                decreases n - i,
            {
                let ghost accv = acc@.map_values(|x: crate::combatant::Combatant| x@);
                match read_combatant(s, cur) {
                    Some((v, p2)) => {
                        proof {
                            lemma_subrange_join(s@, pos as int, cur as int, p2 as int);
                            lemma_enc_member_seq_push(accv, v@);
                            lemma_add_assoc(
                                enc_u64(n as u64),
                                enc_member_seq(accv),
                                enc_combatant(v@),
                            );
                        }
                        acc.push(v);
                        proof {
                            assert(acc@.map_values(|x: crate::combatant::Combatant| x@)
                                =~= accv.push(acc@.last()@));
                            match dec_member_seq(s@, p2 as int, n - i - 1) {
                                Some((rest2, pend)) => {
                                    assert(acc@.map_values(|x: crate::combatant::Combatant| x@)
                                        + rest2 =~= accv + (seq![v@] + rest2));
                                },
                                None => (),
                            }
                        }
                        cur = p2;
                    },
                    None => {
                        return None;
                    },
                }
                i = i + 1;
            }
            proof {
                assert(dec_member_seq(s@, cur as int, 0) == Some(
                    (Seq::<crate::combatant::CombatantView>::empty(), cur as int),
                ));
                assert(acc@.map_values(|x: crate::combatant::Combatant| x@) + Seq::<
                    crate::combatant::CombatantView,
                >::empty() =~= acc@.map_values(|x: crate::combatant::Combatant| x@));
            }
            Some((acc, cur))
        },
        None => None,
    }
}

/// One party: its member roster, then its inventory.
pub open spec fn enc_party(p: crate::party::PartyView) -> Seq<u8> {
    enc_member_list(p.members) + enc_item_list(p.inventory)
}

fn write_party(out: &mut Vec<u8>, party: &crate::party::Party)
    ensures
        final(out)@ == old(out)@ + enc_party(party@),
{
    let ghost base = out@;
    write_member_list(out, &party.members);
    write_item_list(out, &party.inventory);
    proof {
        lemma_add_assoc(base, enc_member_list(party@.members), enc_item_list(party@.inventory));
    }
}

fn read_party(s: &Vec<u8>, pos: usize) -> (r: Option<(crate::party::Party, usize)>)
    ensures
        match r {
            Some((p, end)) => pos <= end <= s@.len() && s@.subrange(pos as int, end as int)
                == enc_party(p@) && dec_party(s@, pos as int) == Some((p@, end as int)),
            None => dec_party(s@, pos as int) is None,
        },
{
    match read_member_list(s, pos) {
        Some((members, p1)) => match read_item_list(s, p1) {
            Some((inventory, p2)) => {
                proof {
                    lemma_subrange_join(s@, pos as int, p1 as int, p2 as int);
                }
                Some((crate::party::Party { members, inventory }, p2))
            },
            None => None,
        },
        None => None,
    }
}

pub open spec fn enc_party_seq(vs: Seq<crate::party::PartyView>) -> Seq<u8>
    decreases vs.len(),
{
    if vs.len() == 0 {
        Seq::empty()
    } else {
        enc_party(vs.first()) + enc_party_seq(vs.drop_first())
    }
}

/// The full combat state: a party count followed by the parties.
pub open spec fn enc_combat_state(stv: Seq<crate::party::PartyView>) -> Seq<u8> {
    enc_u64(stv.len() as u64) + enc_party_seq(stv)
}

#[verifier::rlimit(100)]
proof fn lemma_enc_party_seq_push(vs: Seq<crate::party::PartyView>, v: crate::party::PartyView)
    ensures
        enc_party_seq(vs.push(v)) == enc_party_seq(vs) + enc_party(v),
    decreases vs.len(),
{
    if vs.len() == 0 {
        assert(vs.push(v).first() == v);
        assert(vs.push(v).drop_first() =~= Seq::<crate::party::PartyView>::empty());
        assert(enc_party_seq(vs.push(v)) == enc_party(v) + enc_party_seq(
            Seq::<crate::party::PartyView>::empty(),
        ));
        assert(enc_party_seq(vs.push(v)) =~= enc_party_seq(vs) + enc_party(v));
    } else {
        assert(vs.push(v).first() == vs.first());
        assert(vs.push(v).drop_first() =~= vs.drop_first().push(v));
        lemma_enc_party_seq_push(vs.drop_first(), v);
        assert(enc_party_seq(vs.push(v)) =~= enc_party_seq(vs) + enc_party(v));
    }
}

fn write_combat_state(out: &mut Vec<u8>, state: &crate::combat_state::CombatState)
    ensures
        final(out)@ == old(out)@ + enc_combat_state(state@),
{
    write_u64(out, state.parties.len() as u64);
    let ghost full = state@;
    let mut i: usize = 0;
    #[verifier::loop_isolation(false)]
    while i < state.parties.len()
        invariant
            i <= full.len(),
            out@ == old(out)@ + enc_u64(full.len() as u64) + enc_party_seq(
                full.subrange(0, i as int),
            ),
        decreases full.len() - i,
    {
        write_party(out, &state.parties[i]);
        proof {
            assert(full.subrange(0, i as int + 1) =~= full.subrange(0, i as int).push(
                full[i as int],
            ));
            assert(full[i as int] == state.parties@[i as int]@);
            lemma_enc_party_seq_push(full.subrange(0, i as int), full[i as int]);
            lemma_add_assoc(
                old(out)@ + enc_u64(full.len() as u64),
                enc_party_seq(full.subrange(0, i as int)),
                enc_party(full[i as int]),
            );
        }
        i = i + 1;
    }
    proof {
        assert(full.subrange(0, full.len() as int) =~= full);
        lemma_add_assoc(old(out)@, enc_u64(full.len() as u64), enc_party_seq(full));
    }
}

#[verifier::rlimit(100)]
fn read_combat_state(s: &Vec<u8>, pos: usize) -> (r: Option<
    (crate::combat_state::CombatState, usize),
>)
    ensures
        match r {
            Some((cs, p)) => pos <= p <= s@.len() && s@.subrange(pos as int, p as int)
                == enc_combat_state(cs@) && dec_combat_state(s@, pos as int) == Some(
                (cs@, p as int),
            ),
            None => dec_combat_state(s@, pos as int) is None,
        },
{
    match read_u64(s, pos) {
        Some((n64, p0)) => {
            if n64 > (usize::MAX as u64) {
                return None;
            }
            let n = n64 as usize;
            proof {
                lemma_u64_sound(s@, pos as int);
            }
            let mut acc: Vec<crate::party::Party> = Vec::new();
            let mut cur: usize = p0;
            let mut i: usize = 0;
            #[verifier::loop_isolation(false)]
            while i < n
                invariant
                    i <= n,
                    acc@.len() == i,
                    pos <= p0 <= cur <= s@.len(),
                    s@.subrange(pos as int, cur as int) == enc_u64(n as u64) + enc_party_seq(
                        acc@.map_values(|x: crate::party::Party| x@),
                    ),
                    match dec_party_seq(s@, cur as int, n - i) {
                        Some((rest, pend)) => dec_party_seq(s@, p0 as int, n as int) == Some(
                            (acc@.map_values(|x: crate::party::Party| x@) + rest, pend),
                        ),
                        None => dec_party_seq(s@, p0 as int, n as int) is None,
                    },
                decreases n - i,
            {
                let ghost accv = acc@.map_values(|x: crate::party::Party| x@);
                match read_party(s, cur) {
                    Some((v, p2)) => {
                        proof {
                            lemma_subrange_join(s@, pos as int, cur as int, p2 as int);
                            lemma_enc_party_seq_push(accv, v@);
                            lemma_add_assoc(enc_u64(n as u64), enc_party_seq(accv), enc_party(v@));
                        }
                        acc.push(v);
                        proof {
                            assert(acc@.map_values(|x: crate::party::Party| x@) =~= accv.push(
                                acc@.last()@,
                            ));
                            match dec_party_seq(s@, p2 as int, n - i - 1) {
                                Some((rest2, pend)) => {
                                    assert(acc@.map_values(|x: crate::party::Party| x@) + rest2
                                        =~= accv + (seq![v@] + rest2));
                                },
                                None => (),
                            }
                        }
                        cur = p2;
                    },
                    None => {
                        return None;
                    },
                }
                i = i + 1;
            }
            proof {
                assert(dec_party_seq(s@, cur as int, 0) == Some(
                    (Seq::<crate::party::PartyView>::empty(), cur as int),
                ));
                assert(acc@.map_values(|x: crate::party::Party| x@) + Seq::<
                    crate::party::PartyView,
                >::empty() =~= acc@.map_values(|x: crate::party::Party| x@));
            }
            let state = crate::combat_state::CombatState { parties: acc };
            Some((state, cur))
        },
        None => None,
    }
}

// --- payload envelopes ------------------------------------------------------------

/// Encodes a party into its wire envelope.
pub fn encode_party(party: &crate::party::Party) -> (r: crate::message::Message)
    ensures
        r@.type_ == crate::message::MessageType::Party,
        r@.payload == enc_party(party@),
{
    let mut payload: Vec<u8> = Vec::new();
    write_party(&mut payload, party);
    proof {
        assert(payload@ =~= enc_party(party@));
    }
    crate::message::Message { type_: crate::message::MessageType::Party, payload }
}

/// Decodes a party from its wire envelope: a party comes back exactly when
/// the tag matches and the payload is one canonically encoded party with
/// nothing trailing.
#[verifier::rlimit(100)]
pub fn decode_party(message: &crate::message::Message) -> (r: Option<crate::party::Party>)
    ensures
        match r {
            Some(p) => message@.type_ == crate::message::MessageType::Party && message@.payload
                == enc_party(p@) && decode_party_payload(message@.payload) == Some(p@),
            None => message@.type_ != crate::message::MessageType::Party
                || decode_party_payload(message@.payload) is None,
        },
{
    if !matches!(message.type_, crate::message::MessageType::Party) {
        return None;
    }
    match read_party(&message.payload, 0) {
        Some((p, end)) => {
            if end == message.payload.len() {
                proof {
                    assert(message@.payload.subrange(0, end as int) =~= message@.payload);
                }
                Some(p)
            } else {
                None
            }
        },
        None => None,
    }
}

/// Encodes the full combat state into its wire envelope.
pub fn encode_combat_state(state: &crate::combat_state::CombatState) -> (r:
    crate::message::Message)
    ensures
        r@.type_ == crate::message::MessageType::CombatState,
        r@.payload == enc_combat_state(state@),
{
    let mut payload: Vec<u8> = Vec::new();
    write_combat_state(&mut payload, state);
    proof {
        assert(payload@ =~= enc_combat_state(state@));
    }
    crate::message::Message { type_: crate::message::MessageType::CombatState, payload }
}

/// Decodes a combat state from its wire envelope: a state comes back
/// exactly when the tag matches and the payload is one canonically encoded
/// state with nothing trailing.
pub fn decode_combat_state(message: &crate::message::Message) -> (r: Option<
    crate::combat_state::CombatState,
>)
    ensures
        match r {
            Some(cs) => message@.type_ == crate::message::MessageType::CombatState
                && message@.payload == enc_combat_state(cs@) && decode_combat_state_payload(
                message@.payload,
            ) == Some(cs@),
            None => message@.type_ != crate::message::MessageType::CombatState
                || decode_combat_state_payload(message@.payload) is None,
        },
{
    if !matches!(message.type_, crate::message::MessageType::CombatState) {
        return None;
    }
    match read_combat_state(&message.payload, 0) {
        Some((cs, end)) => {
            if end == message.payload.len() {
                proof {
                    assert(message@.payload.subrange(0, end as int) =~= message@.payload);
                }
                Some(cs)
            } else {
                None
            }
        },
        None => None,
    }
}

/// The handshake payload: the version number alone.
pub open spec fn enc_protocol_version(v: crate::message::ProtocolVersion) -> Seq<u8> {
    enc_u32(v.0)
}

pub fn encode_protocol_version(version: &crate::message::ProtocolVersion) -> (r:
    crate::message::Message)
    ensures
        r@.type_ == crate::message::MessageType::ProtocolVersion,
        r@.payload == enc_protocol_version(*version),
{
    let mut payload: Vec<u8> = Vec::new();
    write_u32(&mut payload, version.0);
    proof {
        assert(payload@ =~= enc_protocol_version(*version));
    }
    crate::message::Message { type_: crate::message::MessageType::ProtocolVersion, payload }
}

pub fn decode_protocol_version(message: &crate::message::Message) -> (r: Option<
    crate::message::ProtocolVersion,
>)
    ensures
        match r {
            Some(v) => message@.type_ == crate::message::MessageType::ProtocolVersion
                && message@.payload == enc_protocol_version(v),
            None => message@.type_ != crate::message::MessageType::ProtocolVersion
                || message@.payload.len() != 4,
        },
{
    if !matches!(message.type_, crate::message::MessageType::ProtocolVersion) {
        return None;
    }
    match read_u32(&message.payload, 0) {
        Some((v, end)) => {
            if end == message.payload.len() {
                proof {
                    lemma_u32_sound(message@.payload, 0);
                    assert(message@.payload.subrange(0, end as int) =~= message@.payload);
                }
                Some(crate::message::ProtocolVersion(v))
            } else {
                None
            }
        },
        None => None,
    }
}

/// The turn prompt payload: the selected combatant's locator alone.
pub open spec fn enc_take_turn(t: crate::message::TakeTurn) -> Seq<u8> {
    enc_target(t.target)
}

pub fn encode_take_turn(take_turn: &crate::message::TakeTurn) -> (r: crate::message::Message)
    ensures
        r@.type_ == crate::message::MessageType::TakeTurn,
        r@.payload == enc_take_turn(*take_turn),
{
    let mut payload: Vec<u8> = Vec::new();
    write_target(&mut payload, take_turn.target);
    proof {
        assert(payload@ =~= enc_take_turn(*take_turn));
    }
    crate::message::Message { type_: crate::message::MessageType::TakeTurn, payload }
}

pub fn decode_take_turn(message: &crate::message::Message) -> (r: Option<
    crate::message::TakeTurn,
>)
    ensures
        match r {
            Some(t) => message@.type_ == crate::message::MessageType::TakeTurn
                && message@.payload == enc_take_turn(t) && decode_take_turn_payload(
                message@.payload,
            ) == Some(t),
            None => message@.type_ != crate::message::MessageType::TakeTurn
                || decode_take_turn_payload(message@.payload) is None,
        },
{
    if !matches!(message.type_, crate::message::MessageType::TakeTurn) {
        return None;
    }
    match read_target(&message.payload, 0) {
        Some((target, end)) => {
            if end == message.payload.len() {
                proof {
                    lemma_u64_sound(message@.payload, 0);
                    lemma_u64_sound(message@.payload, 8);
                    lemma_subrange_join(message@.payload, 0, 8, 16);
                    assert(message@.payload.subrange(0, end as int) =~= message@.payload);
                }
                Some(crate::message::TakeTurn { target })
            } else {
                None
            }
        },
        None => None,
    }
}

/// The victory payload is empty: the tag alone carries the announcement.
pub fn encode_victory(victory: &crate::message::Victory) -> (r: crate::message::Message)
    ensures
        r@.type_ == crate::message::MessageType::Victory,
        r@.payload == Seq::<u8>::empty(),
{
    let _ = victory;
    let payload: Vec<u8> = Vec::new();
    proof {
        assert(payload@ =~= Seq::<u8>::empty());
    }
    crate::message::Message { type_: crate::message::MessageType::Victory, payload }
}

pub fn decode_victory(message: &crate::message::Message) -> (r: Option<crate::message::Victory>)
    ensures
        r is Some <==> (message@.type_ == crate::message::MessageType::Victory
            && message@.payload.len() == 0),
{
    if matches!(message.type_, crate::message::MessageType::Victory) && message.payload.len()
        == 0 {
        Some(crate::message::Victory)
    } else {
        None
    }
}

} // verus!
