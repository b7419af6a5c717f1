//! The ribbon filter: a static function built by solving a banded linear
//! system over GF(2).
//!
//! Every key contributes a handful of equations, each saying that the XOR
//! of the solution bits its 32-slot window selects equals one target bit of
//! the key's fingerprint; a query is accepted only when all of them hold,
//! so the false-positive rate falls exponentially in the equation count.
//! Insertion performs on-the-fly banded Gaussian elimination; a solution is
//! recovered by back-substitution and then checked against every equation,
//! so a buffer is only handed out when every added fingerprint is certain
//! to query true.  Construction can fail on a singular system; the caller
//! retries with fresh seeds and finally falls back to the Bloom path.
use vstd::prelude::*;
use vstd::arithmetic::div_mod::lemma_fundamental_div_mod;
use crate::bits::{spec_get_bit, spec_set_bit, lemma_set_bit_len, get_bit, set_bit, zero_bytes};
use crate::hash::{spec_mix64, mix64};

verus! {

/// Window length: each equation touches this many consecutive slots.
pub const SEGMENT_LENGTH: u32 = 32;

/// Most equations a key contributes.
pub const MAX_RBITS: u8 = 8;

/// Extra slots beyond the bit budget, so that the solve failure
/// probability stays small.
pub const SLOT_SLACK: u32 = 32;

/// Re-seeding budget: seeds `0, 1, 2` are tried before falling back.
pub const RIBBON_ATTEMPTS: u64 = 3;

/// Largest slot count handed out; keeps byte indices inside `usize`.
pub const MAX_SLOTS: u32 = 0x4000_0000;

/// Seed mixing constant (a 64-bit golden-ratio multiplier).
pub const SEED_MUL: u64 = 0x9e3779b97f4a7c15;

/// Slot count for `num_keys` keys at `centi_bpk` hundredths of a bit per
/// key: the bit budget plus slack, at least 64, capped at `MAX_SLOTS`.
pub open spec fn spec_num_slots(num_keys: u32, centi_bpk: u32) -> u32 {
    let raw = ((num_keys as int) * (centi_bpk as int) + 99) / 100 + SLOT_SLACK;
    if raw < 64 {
        64u32
    } else if raw > MAX_SLOTS {
        MAX_SLOTS
    } else {
        raw as u32
    }
}

/// How many equations a key contributes at this budget: one per 1.25 bits
/// per key, so the system stays solvable, between 1 and 8.  The
/// false-positive rate is about one in `2^result`.
pub open spec fn spec_rbits(centi_bpk: u32) -> u8 {
    let raw = centi_bpk / 125;
    if raw < 1 {
        1u8
    } else if raw > MAX_RBITS {
        MAX_RBITS
    } else {
        raw as u8
    }
}

/// The fingerprint re-mixed with the attempt seed.
pub open spec fn spec_rderive(h: u64, seed: u64) -> u64 {
    h ^ seed.wrapping_mul(SEED_MUL)
}

/// The word equation `k` of a key draws its window from.  The low eight
/// bits of the mixed fingerprint are reserved for the target bits and kept
/// out of it.
pub open spec fn spec_rowmix(g: u64, k: int) -> u64 {
    spec_mix64((g >> 8) ^ (((k + 1) as u64).wrapping_mul(SEED_MUL)))
}

/// Window start: high bits of the row word, over the starts that keep the
/// whole window inside the slot range.
pub open spec fn spec_rstart(gk: u64, num_slots: u32) -> int
    recommends
        num_slots > SEGMENT_LENGTH,
{
    ((gk >> 32) as int) % ((num_slots - SEGMENT_LENGTH) as int)
}

/// Coefficient pattern: the low 32 row-word bits, lowest bit forced on so
/// the pattern is never empty and elimination can always pivot on the
/// start.
pub open spec fn spec_rcoeff(gk: u64) -> u32 {
    ((gk & 0xffffffff) as u32) | 1
}

/// Target bit of equation `k`: bit `k` of the mixed fingerprint.
pub open spec fn spec_rbit(g: u64, k: int) -> bool {
    if 0 <= k < 64 {
        (g >> (k as u64)) & 1 == 1
    } else {
        false
    }
}

/// XOR of the solution bits selected by coefficient bits `j..32`, window
/// based at `base`.  Selections outside the array contribute nothing.
pub open spec fn spec_dot(sol: Seq<u8>, base: int, c: u32, j: int) -> bool
    decreases 32 - j,
{
    if j < 0 || j >= 32 {
        false
    } else {
        let picked = (c >> (j as u32)) & 1 == 1 && 0 <= base + j < 8 * sol.len()
            && spec_get_bit(sol, base + j);
        picked != spec_dot(sol, base, c, j + 1)
    }
}

/// Equation `k` of the key with mixed fingerprint `g` holds of the
/// solution bits.
pub open spec fn spec_row_ok(sol: Seq<u8>, num_slots: u32, g: u64, k: int) -> bool {
    spec_dot(sol, spec_rstart(spec_rowmix(g, k), num_slots), spec_rcoeff(spec_rowmix(g, k)), 0)
        == spec_rbit(g, k)
}

/// Every equation of fingerprint `h` holds of the solution bits.
pub open spec fn spec_ribbon_eval(
    sol: Seq<u8>,
    num_slots: u32,
    rbits: u8,
    seed: u64,
    h: u64,
) -> bool {
    forall|k: int| 0 <= k < rbits ==> spec_row_ok(sol, num_slots, #[trigger] spec_rderive(h, seed), k)
}

/// Index of the lowest set bit at or above `k`; 32 when there is none.
pub open spec fn spec_lowbit_from(c: u32, k: int) -> int
    decreases 32 - k,
{
    if k < 0 || k >= 32 {
        32
    } else if (c >> (k as u32)) & 1 == 1 {
        k
    } else {
        spec_lowbit_from(c, k + 1)
    }
}

/// One step of banded elimination: fold the row `(c, t)` based at `pos`
/// into the partially eliminated system, or report it inconsistent.
pub open spec fn spec_rinsert(
    coeff: Seq<u32>,
    rhs: Seq<bool>,
    pos: int,
    c: u32,
    t: bool,
) -> Option<(Seq<u32>, Seq<bool>)>
    decreases coeff.len() - pos,
{
    if pos < 0 || pos >= coeff.len() {
        None
    } else if coeff[pos] == 0 {
        Some((coeff.update(pos, c), rhs.update(pos, t)))
    } else {
        let c2 = c ^ coeff[pos];
        let t2 = t != rhs[pos];
        if c2 == 0 {
            if t2 {
                None
            } else {
                Some((coeff, rhs))
            }
        } else {
            let j = spec_lowbit_from(c2, 0);
            if j < 1 || j > 31 || pos + j >= coeff.len() {
                None
            } else {
                spec_rinsert(coeff, rhs, pos + j, c2 >> (j as u32), t2)
            }
        }
    }
}

/// Fold the first `k` equations of the key with mixed fingerprint `g` in.
pub open spec fn spec_rinsert_key(
    coeff: Seq<u32>,
    rhs: Seq<bool>,
    num_slots: u32,
    g: u64,
    k: nat,
) -> Option<(Seq<u32>, Seq<bool>)>
    decreases k,
{
    if k == 0 {
        Some((coeff, rhs))
    } else {
        match spec_rinsert_key(coeff, rhs, num_slots, g, (k - 1) as nat) {
            None => None,
            Some(s) => {
                let gk = spec_rowmix(g, k - 1);
                spec_rinsert(
                    s.0,
                    s.1,
                    spec_rstart(gk, num_slots),
                    spec_rcoeff(gk),
                    spec_rbit(g, k - 1),
                )
            },
        }
    }
}

/// Fold every equation of one fingerprint into the system.
pub open spec fn spec_rinsert_hash(
    coeff: Seq<u32>,
    rhs: Seq<bool>,
    num_slots: u32,
    rbits: u8,
    seed: u64,
    h: u64,
) -> Option<(Seq<u32>, Seq<bool>)> {
    spec_rinsert_key(coeff, rhs, num_slots, spec_rderive(h, seed), rbits as nat)
}

/// Fold every fingerprint in, left to right.
pub open spec fn spec_rinsert_all(
    coeff: Seq<u32>,
    rhs: Seq<bool>,
    num_slots: u32,
    rbits: u8,
    seed: u64,
    hs: Seq<u64>,
) -> Option<(Seq<u32>, Seq<bool>)>
    decreases hs.len(),
{
    if hs.len() == 0 {
        Some((coeff, rhs))
    } else {
        match spec_rinsert_all(coeff, rhs, num_slots, rbits, seed, hs.drop_last()) {
            None => None,
            Some(s) => spec_rinsert_hash(s.0, s.1, num_slots, rbits, seed, hs.last()),
        }
    }
}

/// The pseudorandom bit a free slot is filled with: without it, a query
/// whose window hits no pivot row would be accepted whenever its target
/// bits are zero.
pub open spec fn spec_free_bit(i: u64, seed: u64) -> bool {
    spec_mix64(i.wrapping_mul(SEED_MUL) ^ seed) & 1 == 1
}

/// Back-substitution from the top row down: the solution bits for slots
/// `i..` packed into `nbytes` bytes, each pivot row's bit chosen to
/// satisfy its equation, free slots filled pseudorandomly from the seed.
pub open spec fn spec_backsub_from(
    coeff: Seq<u32>,
    rhs: Seq<bool>,
    nbytes: nat,
    i: int,
    seed: u64,
) -> Seq<u8>
    decreases coeff.len() - i,
{
    if i < 0 || i >= coeff.len() {
        Seq::new(nbytes, |k: int| 0u8)
    } else {
        let rest = spec_backsub_from(coeff, rhs, nbytes, i + 1, seed);
        let zi = if coeff[i] == 0 {
            spec_free_bit(i as u64, seed)
        } else {
            rhs[i] != spec_dot(rest, i + 1, coeff[i] >> 1u32, 0)
        };
        if zi {
            spec_set_bit(rest, i)
        } else {
            rest
        }
    }
}

/// Every fingerprint's equations hold of the solution.
pub open spec fn spec_rcheck(
    sol: Seq<u8>,
    num_slots: u32,
    rbits: u8,
    seed: u64,
    hs: Seq<u64>,
) -> bool {
    forall|i: int|
        0 <= i < hs.len() ==> spec_ribbon_eval(sol, num_slots, rbits, seed, #[trigger] hs[i])
}

/// The empty system: no pivot row in any slot.
pub open spec fn spec_zero_coeff(n: nat) -> Seq<u32> {
    Seq::new(n, |k: int| 0u32)
}

/// The empty right-hand side.
pub open spec fn spec_zero_rhs(n: nat) -> Seq<bool> {
    Seq::new(n, |k: int| false)
}

/// One construction attempt: eliminate, back-substitute, then check every
/// equation; a solution is returned only when the check passes.
pub open spec fn spec_ribbon_try(hs: Seq<u64>, num_slots: u32, rbits: u8, seed: u64) -> Option<
    Seq<u8>,
> {
    let nbytes = (((num_slots + 7) / 8) as nat);
    match spec_rinsert_all(
        spec_zero_coeff(num_slots as nat),
        spec_zero_rhs(num_slots as nat),
        num_slots,
        rbits,
        seed,
        hs,
    ) {
        None => None,
        Some(s) => {
            let sol = spec_backsub_from(s.0, s.1, nbytes, 0, seed);
            if spec_rcheck(sol, num_slots, rbits, seed, hs) {
                Some(sol)
            } else {
                None
            }
        },
    }
}

/// The solve over the whole seed budget: the first seed whose attempt
/// succeeds, with its solution.
pub open spec fn spec_ribbon_solve(hs: Seq<u64>, num_slots: u32, rbits: u8) -> Option<
    (u64, Seq<u8>),
> {
    if spec_ribbon_try(hs, num_slots, rbits, 0) is Some {
        Some((0u64, spec_ribbon_try(hs, num_slots, rbits, 0)->Some_0))
    } else if spec_ribbon_try(hs, num_slots, rbits, 1) is Some {
        Some((1u64, spec_ribbon_try(hs, num_slots, rbits, 1)->Some_0))
    } else if spec_ribbon_try(hs, num_slots, rbits, 2) is Some {
        Some((2u64, spec_ribbon_try(hs, num_slots, rbits, 2)->Some_0))
    } else {
        None
    }
}

pub proof fn lemma_num_slots_bounds(num_keys: u32, centi_bpk: u32)
    ensures
        64 <= spec_num_slots(num_keys, centi_bpk) <= MAX_SLOTS,
{
}

/// Elimination never changes the shape of the system.
pub proof fn lemma_rinsert_len(coeff: Seq<u32>, rhs: Seq<bool>, pos: int, c: u32, t: bool)
    requires
        rhs.len() == coeff.len(),
        spec_rinsert(coeff, rhs, pos, c, t) is Some,
    ensures
        (spec_rinsert(coeff, rhs, pos, c, t)->Some_0).0.len() == coeff.len(),
        (spec_rinsert(coeff, rhs, pos, c, t)->Some_0).1.len() == rhs.len(),
    decreases coeff.len() - pos,
{
    if 0 <= pos < coeff.len() && coeff[pos] != 0 {
        let c2 = c ^ coeff[pos];
        let t2 = t != rhs[pos];
        if c2 != 0 {
            let j = spec_lowbit_from(c2, 0);
            if 1 <= j <= 31 && pos + j < coeff.len() {
                lemma_rinsert_len(coeff, rhs, pos + j, c2 >> (j as u32), t2);
            }
        }
    }
}

/// So does folding one key's equations in.
pub proof fn lemma_rkey_len(coeff: Seq<u32>, rhs: Seq<bool>, num_slots: u32, g: u64, k: nat)
    requires
        rhs.len() == coeff.len(),
        spec_rinsert_key(coeff, rhs, num_slots, g, k) is Some,
    ensures
        (spec_rinsert_key(coeff, rhs, num_slots, g, k)->Some_0).0.len() == coeff.len(),
        (spec_rinsert_key(coeff, rhs, num_slots, g, k)->Some_0).1.len() == rhs.len(),
    decreases k,
{
    if k > 0 {
        lemma_rkey_len(coeff, rhs, num_slots, g, (k - 1) as nat);
        let s = spec_rinsert_key(coeff, rhs, num_slots, g, (k - 1) as nat)->Some_0;
        let gk = spec_rowmix(g, k - 1);
        lemma_rinsert_len(s.0, s.1, spec_rstart(gk, num_slots), spec_rcoeff(gk), spec_rbit(g, k - 1));
    }
}

/// And folding a whole key set in.
pub proof fn lemma_rall_len(
    coeff: Seq<u32>,
    rhs: Seq<bool>,
    num_slots: u32,
    rbits: u8,
    seed: u64,
    hs: Seq<u64>,
)
    requires
        rhs.len() == coeff.len(),
        spec_rinsert_all(coeff, rhs, num_slots, rbits, seed, hs) is Some,
    ensures
        (spec_rinsert_all(coeff, rhs, num_slots, rbits, seed, hs)->Some_0).0.len() == coeff.len(),
        (spec_rinsert_all(coeff, rhs, num_slots, rbits, seed, hs)->Some_0).1.len() == rhs.len(),
    decreases hs.len(),
{
    if hs.len() > 0 {
        lemma_rall_len(coeff, rhs, num_slots, rbits, seed, hs.drop_last());
        let s = spec_rinsert_all(coeff, rhs, num_slots, rbits, seed, hs.drop_last())->Some_0;
        lemma_rkey_len(s.0, s.1, num_slots, spec_rderive(hs.last(), seed), rbits as nat);
    }
}

/// Back-substitution fills exactly the requested byte count.
pub proof fn lemma_backsub_len(coeff: Seq<u32>, rhs: Seq<bool>, nbytes: nat, i: int, seed: u64)
    requires
        8 * nbytes >= coeff.len(),
    ensures
        spec_backsub_from(coeff, rhs, nbytes, i, seed).len() == nbytes,
    decreases coeff.len() - i,
{
    if 0 <= i < coeff.len() {
        lemma_backsub_len(coeff, rhs, nbytes, i + 1, seed);
        lemma_set_bit_len(spec_backsub_from(coeff, rhs, nbytes, i + 1, seed), i);
    }
}

/// What a successful solve hands back: a solution of the exact serialized
/// size whose equations all check.
pub proof fn lemma_ribbon_solve_props(hs: Seq<u64>, num_slots: u32, rbits: u8)
    requires
        64 <= num_slots <= MAX_SLOTS,
        spec_ribbon_solve(hs, num_slots, rbits) is Some,
    ensures
        (spec_ribbon_solve(hs, num_slots, rbits)->Some_0).1.len() == (num_slots + 7) / 8,
        spec_rcheck(
            (spec_ribbon_solve(hs, num_slots, rbits)->Some_0).1,
            num_slots,
            rbits,
            (spec_ribbon_solve(hs, num_slots, rbits)->Some_0).0,
            hs,
        ),
{
    let nbytes = (((num_slots + 7) / 8) as nat);
    lemma_fundamental_div_mod(num_slots + 7, 8);
    let seed = (spec_ribbon_solve(hs, num_slots, rbits)->Some_0).0;
    let cf0 = spec_zero_coeff(num_slots as nat);
    let rh0 = spec_zero_rhs(num_slots as nat);
    assert(spec_ribbon_try(hs, num_slots, rbits, seed) is Some);
    let s = spec_rinsert_all(cf0, rh0, num_slots, rbits, seed, hs)->Some_0;
    lemma_rall_len(cf0, rh0, num_slots, rbits, seed, hs);
    lemma_backsub_len(s.0, s.1, nbytes, 0, seed);
}

/// Slot count, computed as the spec says.
pub fn ribbon_num_slots(num_keys: u32, centi_bpk: u32) -> (r: u32)
    ensures
        r == spec_num_slots(num_keys, centi_bpk),
        64 <= r <= MAX_SLOTS,
{
    proof {
        assert((num_keys as int) * (centi_bpk as int) < 0x10000000000000000) by (nonlinear_arith)
            requires
                (num_keys as int) < 0x100000000,
                (centi_bpk as int) < 0x100000000,
                (num_keys as int) >= 0,
                (centi_bpk as int) >= 0,
        ;
    }
    let budget: u128 = ((num_keys as u128) * (centi_bpk as u128) + 99) / 100;
    proof {
        assert(budget <= (num_keys as u128) * (centi_bpk as u128) + 99) by (nonlinear_arith)
            requires
                budget == ((num_keys as u128) * (centi_bpk as u128) + 99) / 100,
        ;
    }
    let raw: u128 = budget + SLOT_SLACK as u128;
    if raw < 64 {
        64
    } else if raw > MAX_SLOTS as u128 {
        MAX_SLOTS
    } else {
        raw as u32
    }
}

/// Equations per key, computed as the spec says.
pub fn ribbon_rbits(centi_bpk: u32) -> (r: u8)
    ensures
        r == spec_rbits(centi_bpk),
        1 <= r <= MAX_RBITS,
{
    let raw = centi_bpk / 125;
    if raw < 1 {
        1
    } else if raw > MAX_RBITS as u32 {
        MAX_RBITS
    } else {
        raw as u8
    }
}

fn rderive(h: u64, seed: u64) -> (r: u64)
    ensures
        r == spec_rderive(h, seed),
{
    h ^ seed.wrapping_mul(SEED_MUL)
}

/// One equation's window start, coefficients and target, computed as the
/// spec says.
fn row_of(g: u64, k: u8, num_slots: u32) -> (r: (u64, u32, bool))
    requires
        num_slots > SEGMENT_LENGTH,
        k < MAX_RBITS,
    ensures
        r.0 as int == spec_rstart(spec_rowmix(g, k as int), num_slots),
        r.0 < num_slots - SEGMENT_LENGTH,
        r.1 == spec_rcoeff(spec_rowmix(g, k as int)),
        r.2 == spec_rbit(g, k as int),
{
    let gk = mix64((g >> 8) ^ ((k as u64 + 1).wrapping_mul(SEED_MUL)));
    let range: u64 = (num_slots - SEGMENT_LENGTH) as u64;
    let start = (gk >> 32) % range;
    proof {
        assert(start < range) by (nonlinear_arith)
            requires
                range >= 1,
                start == (gk >> 32) % range,
        ;
        assert(gk & 0xffffffff < 0x100000000) by (bit_vector);
    }
    let c: u32 = ((gk & 0xffffffff) as u32) | 1;
    let t: bool = (g >> (k as u64)) & 1 == 1;
    (start, c, t)
}

/// XOR of the selected window bits, computed as the spec says.
fn dot_bits(sol: &Vec<u8>, base: u64, c: u32) -> (r: bool)
    requires
        base <= 0x1_0000_0000,
        sol@.len() <= 0x1000_0000,
    ensures
        r == spec_dot(sol@, base as int, c, 0),
{
    let mut parity = false;
    let mut j: u32 = 0;
    while j < 32
        invariant
            j <= 32,
            base <= 0x1_0000_0000,
            sol@.len() <= 0x1000_0000,
            spec_dot(sol@, base as int, c, 0) == (parity != spec_dot(sol@, base as int, c, j as int)),
        decreases 32 - j,
    {
        let idx: u64 = base + j as u64;
        let picked = (c >> j) & 1 == 1 && idx < 8 * (sol.len() as u64) && get_bit(sol, idx);
        proof {
            assert(spec_dot(sol@, base as int, c, j as int) == (picked != spec_dot(
                sol@,
                base as int,
                c,
                j as int + 1,
            )));
        }
        parity = parity != picked;
        j = j + 1;
    }
    parity
}

/// Every equation of one fingerprint, evaluated against a packed solution
/// exactly as at construction.
pub fn ribbon_eval(sol: &Vec<u8>, num_slots: u32, rbits: u8, seed: u64, h: u64) -> (r: bool)
    requires
        num_slots > SEGMENT_LENGTH,
        sol@.len() <= 0x1000_0000,
        rbits <= MAX_RBITS,
    ensures
        r == spec_ribbon_eval(sol@, num_slots, rbits, seed, h),
{
    let g = rderive(h, seed);
    let mut k: u8 = 0;
    while k < rbits
        invariant
            k <= rbits,
            rbits <= MAX_RBITS,
            num_slots > SEGMENT_LENGTH,
            sol@.len() <= 0x1000_0000,
            g == spec_rderive(h, seed),
            forall|kk: int| 0 <= kk < k ==> spec_row_ok(sol@, num_slots, g, kk),
        decreases rbits - k,
    {
        let row = row_of(g, k, num_slots);
        let d = dot_bits(sol, row.0, row.1);
        if d != row.2 {
            proof {
                assert(!spec_row_ok(sol@, num_slots, g, k as int));
            }
            return false;
        }
        k = k + 1;
    }
    true
}

/// Fold one row into the system by banded elimination, as the spec says.
fn rinsert(coeff: &mut Vec<u32>, rhs: &mut Vec<bool>, pos0: u64, c0: u32, t0: bool) -> (ok: bool)
    requires
        old(coeff)@.len() == old(rhs)@.len(),
        old(coeff)@.len() <= MAX_SLOTS,
    ensures
        final(coeff)@.len() == old(coeff)@.len(),
        final(rhs)@.len() == old(rhs)@.len(),
        ok == (spec_rinsert(old(coeff)@, old(rhs)@, pos0 as int, c0, t0) is Some),
        ok ==> Some((final(coeff)@, final(rhs)@)) == spec_rinsert(
            old(coeff)@,
            old(rhs)@,
            pos0 as int,
            c0,
            t0,
        ),
        !ok ==> final(coeff)@ == old(coeff)@ && final(rhs)@ == old(rhs)@,
{
    let n: usize = coeff.len();
    let mut pos: u64 = pos0;
    let mut c: u32 = c0;
    let mut t: bool = t0;
    loop
        invariant
            coeff@ == old(coeff)@,
            rhs@ == old(rhs)@,
            coeff@.len() == n,
            rhs@.len() == n,
            n <= MAX_SLOTS,
            spec_rinsert(coeff@, rhs@, pos0 as int, c0, t0) == spec_rinsert(
                coeff@,
                rhs@,
                pos as int,
                c,
                t,
            ),
        decreases coeff@.len() - pos,
    {
        if pos >= n as u64 {
            return false;
        }
        let row = coeff[pos as usize];
        if row == 0 {
            coeff.set(pos as usize, c);
            rhs.set(pos as usize, t);
            return true;
        }
        let c2 = c ^ row;
        let t2 = t != rhs[pos as usize];
        if c2 == 0 {
            return !t2;
        }
        let mut j: u32 = 0;
        while j < 32 && (c2 >> j) & 1 == 0
            invariant
                j <= 32,
                spec_lowbit_from(c2, 0) == spec_lowbit_from(c2, j as int),
            decreases 32 - j,
        {
            j = j + 1;
        }
        proof {
            assert((c2 >> j) & 1 == 0 || (c2 >> j) & 1 == 1) by (bit_vector);
            if j < 32 {
                assert(spec_lowbit_from(c2, j as int) == j as int);
            } else {
                assert(spec_lowbit_from(c2, j as int) == 32);
            }
        }
        if j < 1 || j > 31 || pos + j as u64 >= n as u64 {
            return false;
        }
        pos = pos + j as u64;
        c = c2 >> j;
        t = t2;
    }
}

/// Once one of a key's equations has made the system inconsistent, folding
/// the rest in cannot recover it.
proof fn lemma_rkey_none_sticks(
    coeff: Seq<u32>,
    rhs: Seq<bool>,
    num_slots: u32,
    g: u64,
    k: nat,
    r: nat,
)
    requires
        k <= r,
        spec_rinsert_key(coeff, rhs, num_slots, g, k) is None,
    ensures
        spec_rinsert_key(coeff, rhs, num_slots, g, r) is None,
    decreases r,
{
    if r > k {
        lemma_rkey_none_sticks(coeff, rhs, num_slots, g, k, (r - 1) as nat);
    }
}

/// Once elimination has failed on a prefix of the keys, adding more keys
/// cannot recover it.
proof fn lemma_rall_none_sticks(
    coeff: Seq<u32>,
    rhs: Seq<bool>,
    num_slots: u32,
    rbits: u8,
    seed: u64,
    hs: Seq<u64>,
    k: int,
)
    requires
        0 <= k <= hs.len(),
        spec_rinsert_all(coeff, rhs, num_slots, rbits, seed, hs.take(k)) is None,
    ensures
        spec_rinsert_all(coeff, rhs, num_slots, rbits, seed, hs) is None,
    decreases hs.len(),
{
    if hs.len() > k {
        assert(hs.drop_last().take(k) =~= hs.take(k));
        lemma_rall_none_sticks(coeff, rhs, num_slots, rbits, seed, hs.drop_last(), k);
    } else {
        assert(hs.take(k) =~= hs);
    }
}

/// The pseudorandom filler bit, computed as the spec says.
fn free_bit(i: u32, seed: u64) -> (r: bool)
    ensures
        r == spec_free_bit(i as u64, seed),
{
    mix64((i as u64).wrapping_mul(SEED_MUL) ^ seed) & 1 == 1
}

/// Back-substitution, as the spec says.
fn ribbon_backsub(coeff: &Vec<u32>, rhs: &Vec<bool>, num_slots: u32, seed: u64) -> (sol: Vec<u8>)
    requires
        coeff@.len() == num_slots,
        rhs@.len() == num_slots,
        num_slots <= MAX_SLOTS,
    ensures
        sol@ == spec_backsub_from(coeff@, rhs@, (((num_slots + 7) / 8) as nat), 0, seed),
        sol@.len() == (num_slots + 7) / 8,
{
    let nbytes: usize = ((num_slots + 7) / 8) as usize;
    proof {
        lemma_fundamental_div_mod(num_slots + 7, 8);
    }
    let mut sol = zero_bytes(nbytes);
    proof {
        assert(sol@ =~= spec_backsub_from(coeff@, rhs@, nbytes as nat, num_slots as int, seed));
    }
    let mut i: u32 = num_slots;
    while i > 0
        invariant
            i <= num_slots,
            num_slots <= MAX_SLOTS,
            coeff@.len() == num_slots,
            rhs@.len() == num_slots,
            sol@.len() == nbytes,
            nbytes == (num_slots + 7) / 8,
            8 * nbytes >= num_slots,
            sol@ == spec_backsub_from(coeff@, rhs@, nbytes as nat, i as int, seed),
        decreases i,
    {
        i = i - 1;
        let row = coeff[i as usize];
        let zi = if row == 0 {
            free_bit(i, seed)
        } else {
            let d = dot_bits(&sol, (i + 1) as u64, row >> 1u32);
            rhs[i as usize] != d
        };
        if zi {
            set_bit(&mut sol, i as u64);
            proof {
                lemma_set_bit_len(
                    spec_backsub_from(coeff@, rhs@, nbytes as nat, i + 1, seed),
                    i as int,
                );
            }
        }
    }
    sol
}

/// One construction attempt for one seed; `Some` only when every added
/// fingerprint's equations hold of the returned solution bits.
pub fn ribbon_try_build(hashes: &Vec<u64>, num_slots: u32, rbits: u8, seed: u64) -> (r: Option<
    Vec<u8>,
>)
    requires
        64 <= num_slots <= MAX_SLOTS,
        1 <= rbits <= MAX_RBITS,
    ensures
        r is Some <==> spec_ribbon_try(hashes@, num_slots, rbits, seed) is Some,
        r is Some ==> r->Some_0@ == spec_ribbon_try(hashes@, num_slots, rbits, seed)->Some_0,
        r is Some ==> r->Some_0@.len() == (num_slots + 7) / 8,
        r is Some ==> spec_rcheck(r->Some_0@, num_slots, rbits, seed, hashes@),
{
    let n = num_slots as usize;
    let mut coeff: Vec<u32> = Vec::new();
    let mut rhs: Vec<bool> = Vec::new();
    let mut w: usize = 0;
    while w < n
        invariant
            w <= n,
            coeff@ =~= Seq::new(w as nat, |q: int| 0u32),
            rhs@ =~= Seq::new(w as nat, |q: int| false),
        decreases n - w,
    {
        coeff.push(0u32);
        rhs.push(false);
        w = w + 1;
    }
    let ghost cf0 = spec_zero_coeff(num_slots as nat);
    let ghost rh0 = spec_zero_rhs(num_slots as nat);
    proof {
        assert(coeff@ =~= cf0);
        assert(rhs@ =~= rh0);
    }
    let mut i: usize = 0;
    while i < hashes.len()
        invariant
            i <= hashes@.len(),
            64 <= num_slots <= MAX_SLOTS,
            1 <= rbits <= MAX_RBITS,
            coeff@.len() == num_slots,
            rhs@.len() == num_slots,
            cf0 == spec_zero_coeff(num_slots as nat),
            rh0 == spec_zero_rhs(num_slots as nat),
            Some((coeff@, rhs@)) == spec_rinsert_all(
                cf0,
                rh0,
                num_slots,
                rbits,
                seed,
                hashes@.take(i as int),
            ),
        decreases hashes@.len() - i,
    {
        let h = hashes[i];
        let g = rderive(h, seed);
        let ghost cf_i = coeff@;
        let ghost rh_i = rhs@;
        let mut k: u8 = 0;
        let mut key_ok = true;
        while key_ok && k < rbits
            invariant
                k <= rbits,
                1 <= rbits <= MAX_RBITS,
                64 <= num_slots <= MAX_SLOTS,
                coeff@.len() == num_slots,
                rhs@.len() == num_slots,
                g == spec_rderive(h, seed),
                key_ok ==> Some((coeff@, rhs@)) == spec_rinsert_key(
                    cf_i,
                    rh_i,
                    num_slots,
                    g,
                    k as nat,
                ),
                !key_ok ==> spec_rinsert_key(cf_i, rh_i, num_slots, g, rbits as nat) is None,
            decreases rbits - k,
        {
            let row = row_of(g, k, num_slots);
            let ok = rinsert(&mut coeff, &mut rhs, row.0, row.1, row.2);
            proof {
                if !ok {
                    assert(spec_rinsert_key(cf_i, rh_i, num_slots, g, (k + 1) as nat) is None);
                    lemma_rkey_none_sticks(
                        cf_i,
                        rh_i,
                        num_slots,
                        g,
                        (k + 1) as nat,
                        rbits as nat,
                    );
                }
            }
            if !ok {
                key_ok = false;
            }
            k = k + 1;
        }
        proof {
            assert(hashes@.take(i + 1).drop_last() =~= hashes@.take(i as int));
            assert(hashes@.take(i + 1).last() == h);
        }
        if !key_ok {
            proof {
                assert(spec_rinsert_hash(cf_i, rh_i, num_slots, rbits, seed, h) is None);
                assert(spec_rinsert_all(
                    cf0,
                    rh0,
                    num_slots,
                    rbits,
                    seed,
                    hashes@.take(i + 1),
                ) is None);
                lemma_rall_none_sticks(cf0, rh0, num_slots, rbits, seed, hashes@, i + 1);
                assert(spec_ribbon_try(hashes@, num_slots, rbits, seed) is None);
            }
            return None;
        }
        i = i + 1;
    }
    proof {
        assert(hashes@.take(hashes@.len() as int) =~= hashes@);
    }
    let sol = ribbon_backsub(&coeff, &rhs, num_slots, seed);
    let mut q: usize = 0;
    while q < hashes.len()
        invariant
            q <= hashes@.len(),
            64 <= num_slots <= MAX_SLOTS,
            1 <= rbits <= MAX_RBITS,
            sol@.len() == (num_slots + 7) / 8,
            sol@ == spec_backsub_from(coeff@, rhs@, (((num_slots + 7) / 8) as nat), 0, seed),
            cf0 == spec_zero_coeff(num_slots as nat),
            rh0 == spec_zero_rhs(num_slots as nat),
            Some((coeff@, rhs@)) == spec_rinsert_all(cf0, rh0, num_slots, rbits, seed, hashes@),
            forall|v: int|
                0 <= v < q ==> spec_ribbon_eval(
                    sol@,
                    num_slots,
                    rbits,
                    seed,
                    #[trigger] hashes@[v],
                ),
        decreases hashes@.len() - q,
    {
        if !ribbon_eval(&sol, num_slots, rbits, seed, hashes[q]) {
            proof {
                assert(!spec_rcheck(sol@, num_slots, rbits, seed, hashes@));
                assert(spec_ribbon_try(hashes@, num_slots, rbits, seed) is None);
            }
            return None;
        }
        q = q + 1;
    }
    assert(spec_rcheck(sol@, num_slots, rbits, seed, hashes@));
    Some(sol)
}

/// The solve over the seed budget, as the spec says.
pub fn ribbon_solve(hashes: &Vec<u64>, num_slots: u32, rbits: u8) -> (r: Option<(u64, Vec<u8>)>)
    requires
        64 <= num_slots <= MAX_SLOTS,
        1 <= rbits <= MAX_RBITS,
    ensures
        r is Some <==> spec_ribbon_solve(hashes@, num_slots, rbits) is Some,
        r is Some ==> (r->Some_0.0, r->Some_0.1@) == spec_ribbon_solve(
            hashes@,
            num_slots,
            rbits,
        )->Some_0,
        r is Some ==> r->Some_0.1@.len() == (num_slots + 7) / 8,
        r is Some ==> spec_rcheck(r->Some_0.1@, num_slots, rbits, r->Some_0.0, hashes@),
        r is Some ==> r->Some_0.0 < RIBBON_ATTEMPTS,
{
    let mut seed: u64 = 0;
    while seed < RIBBON_ATTEMPTS
        invariant
            seed <= RIBBON_ATTEMPTS,
            64 <= num_slots <= MAX_SLOTS,
            1 <= rbits <= MAX_RBITS,
            forall|s: u64|
                s < seed ==> #[trigger] spec_ribbon_try(hashes@, num_slots, rbits, s) is None,
        decreases RIBBON_ATTEMPTS - seed,
    {
        let attempt = ribbon_try_build(hashes, num_slots, rbits, seed);
        match attempt {
            Some(sol) => {
                return Some((seed, sol));
            },
            None => {},
        }
        seed = seed + 1;
    }
    None
}

} // verus!
