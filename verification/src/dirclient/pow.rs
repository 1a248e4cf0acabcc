use vstd::bytes::{spec_u64_to_le_bytes, u64_to_le_bytes};
use vstd::prelude::*;

use crate::crypt::hash::{spec_digest, spec_keyed_digest};
use crate::structs::directory::{PowAlgo, PowSeed, PowSolution};

verus! {

/// What Equi-X solving of a challenge gives: its solutions, each as 16 bytes, or nothing for
/// a challenge that the hash program constraints reject.
pub uninterp spec fn equix_solutions(challenge: Seq<u8>) -> Option<Seq<Seq<u8>>>;

/// The views of a list of 16-byte solutions.
pub open spec fn solution_views(v: Seq<[u8; 16]>) -> Seq<Seq<u8>> {
    v.map_values(|a: [u8; 16]| a@)
}

/// Calls `equix::EquiXBuilder::new().solve` on a challenge, and `Solution::to_bytes` on each
/// solution; the result is named `equix_solutions` of the challenge.
#[verifier::external_body]
fn equix_solve(challenge: &[u8; 32]) -> (r: Option<Vec<[u8; 16]>>)
    ensures
        r is Some <==> equix_solutions(challenge@) is Some,
        r is Some ==> solution_views(r->0@) == equix_solutions(challenge@)->0,
{
    match equix::EquiXBuilder::new().solve(challenge) {
        Ok(solutions) => {
            let mut out = Vec::new();
            for s in solutions.iter() {
                out.push(s.to_bytes());
            }
            Some(out)
        },
        Err(_) => None,
    }
}

/// Draws a random 64-bit number from `rand::thread_rng`. Nothing is stated of it.
#[verifier::external_body]
fn random_u64() -> (x: u64) {
    rand::RngCore::next_u64(&mut rand::thread_rng())
}

/// Why no proof of work was found.
#[derive(Clone, Copy, Debug, PartialEq, Eq, Structural)]
pub enum PowError {
    /// Every nonce was tried without a solution good enough for the effort.
    Exhausted,
}

/// The value of bytes read as a big-endian number.
pub open spec fn be_value(s: Seq<u8>) -> nat
    decreases s.len(),
{
    if s.len() == 0 {
        0
    } else {
        be_value(s.drop_last()) * 256 + s.last() as nat
    }
}

/// `x` as 8 big-endian bytes.
pub open spec fn spec_u64_to_be_bytes(x: u64) -> Seq<u8> {
    spec_u64_to_le_bytes(x).reverse()
}

/// The challenge for a seed and a nonce: the nonce's big-endian bytes hashed under the seed.
pub open spec fn pow_challenge(seed: Seq<u8>, nonce: u64) -> Seq<u8> {
    spec_keyed_digest(seed, spec_u64_to_be_bytes(nonce))
}

/// The score of a solution: the first 8 bytes of its hash, as a big-endian number.
pub open spec fn solution_score(solution: Seq<u8>) -> nat {
    be_value(spec_digest(solution).subrange(0, 8))
}

/// Whether a solution answers the seed with the given effort: it is an Equi-X solution of the
/// challenge for its nonce, and its score times the effort fits in 64 bits.
pub open spec fn pow_solution_valid(seed: Seq<u8>, effort: u64, sol: PowSolution) -> bool {
    &&& sol.seed@ == seed
    &&& equix_solutions(pow_challenge(seed, sol.nonce)) is Some
    &&& equix_solutions(pow_challenge(seed, sol.nonce))->0.contains(sol.solution@)
    &&& solution_score(sol.solution@) * effort <= u64::MAX
}

/// The first 8 bytes of a hash as a big-endian number.
fn hash_prefix_be(h: &[u8; 32]) -> (v: u64)
    ensures
        v == be_value(h@.subrange(0, 8)),
{
    let mut v: u64 = 0;
    let mut i: usize = 0;
    while i < 8
        invariant
            0 <= i <= 8,
            h@.len() == 32,
            v == be_value(h@.subrange(0, i as int)),
            v < pow256(i as nat),
        decreases 8 - i,
    {
        let b = h[i];
        proof {
            assert(h@.subrange(0, i + 1).drop_last() =~= h@.subrange(0, i as int));
            lemma_pow256_bound(i as nat);
            let p = pow256(i as nat);
            assert(v * 256 + b < p * 256) by (nonlinear_arith)
                requires
                    v < p,
                    b < 256,
            ;
        }
        v = v * 256 + b as u64;
        i = i + 1;
    }
    v
}

/// 256 to the power `n`.
pub open spec fn pow256(n: nat) -> nat
    decreases n,
{
    if n == 0 {
        1
    } else {
        pow256((n - 1) as nat) * 256
    }
}

proof fn lemma_pow256_bound(n: nat)
    requires
        n <= 7,
    ensures
        pow256(n) * 256 <= 0x1_0000_0000_0000_0000,
{
    reveal_with_fuel(pow256, 9);
    assert(pow256(8) == 0x1_0000_0000_0000_0000);
    assert(pow256(1) == 256);
    assert(pow256(2) == 0x1_0000);
    assert(pow256(3) == 0x100_0000);
    assert(pow256(4) == 0x1_0000_0000);
    assert(pow256(5) == 0x100_0000_0000);
    assert(pow256(6) == 0x1_0000_0000_0000);
    assert(pow256(7) == 0x100_0000_0000_0000);
}

/// `x` as 8 big-endian bytes.
fn u64_be_bytes(x: u64) -> (v: Vec<u8>)
    ensures
        v@ == spec_u64_to_be_bytes(x),
{
    let le = u64_to_le_bytes(x);
    let mut v: Vec<u8> = Vec::new();
    let mut i: usize = 8;
    while i > 0
        invariant
            0 <= i <= 8,
            le@ == spec_u64_to_le_bytes(x),
            le@.len() == 8,
            v@.len() == 8 - i,
            forall|j: int| 0 <= j < 8 - i ==> v@[j] == le@[7 - j],
        decreases i,
    {
        i = i - 1;
        v.push(le[i]);
    }
    assert(v@ =~= spec_u64_to_be_bytes(x));
    v
}

/// Whether some Equi-X solution of the challenge for `nonce` scores low enough for the effort.
pub open spec fn nonce_solves(seed: Seq<u8>, effort: u64, nonce: u64) -> bool {
    match equix_solutions(pow_challenge(seed, nonce)) {
        Some(sols) => exists|k: int|
            0 <= k < sols.len() && #[trigger] solution_score(sols[k]) * effort <= u64::MAX,
        None => false,
    }
}

/// Whether some nonce has a solution that scores low enough for the effort.
pub open spec fn pow_solvable(seed: Seq<u8>, effort: u64) -> bool {
    exists|nonce: u64| #[trigger] nonce_solves(seed, effort, nonce)
}

/// The number of 64-bit nonces.
pub open spec fn nonce_count() -> int {
    0x1_0000_0000_0000_0000
}

/// Solves an Equi-X proof of work for the seed: from a random nonce, tries nonce after nonce
/// until one of the challenge's solutions scores low enough for the effort. It fails only where
/// no nonce has such a solution.
pub fn solve_equix_pow(seed: &PowSeed, effort: u64) -> (r: Result<PowSolution, PowError>)
    ensures
        r is Ok <==> pow_solvable(seed.seed@, effort),
        r matches Ok(sol) ==> pow_solution_valid(seed.seed@, effort, sol),
{
    let start = random_u64();
    let mut nonce = start;
    let seed_bytes = seed.seed.to_bytes();
    let mut attempts: u64 = 0;
    loop
        invariant
            seed_bytes@ == seed.seed@,
            nonce as int == (start as int + attempts as int) % nonce_count(),
            forall|j: int|
                0 <= j < attempts ==> !nonce_solves(
                    seed.seed@,
                    effort,
                    #[trigger] ((start as int + j) % nonce_count()) as u64,
                ),
        decreases u64::MAX - attempts,
    {
        let nonce_bytes = u64_be_bytes(nonce);
        let challenge = crate::crypt::hash::Hash::keyed_digest(&seed_bytes, nonce_bytes.as_slice());
        let challenge_bytes = challenge.to_bytes();
        match equix_solve(&challenge_bytes) {
            Some(solutions) => {
                let mut k: usize = 0;
                while k < solutions.len()
                    invariant
                        0 <= k <= solutions@.len(),
                        solution_views(solutions@) == equix_solutions(challenge_bytes@)->0,
                        equix_solutions(challenge_bytes@) is Some,
                        challenge_bytes@ == pow_challenge(seed.seed@, nonce),
                        seed_bytes@ == seed.seed@,
                        forall|i: int|
                            0 <= i < k ==> #[trigger] solution_score(
                                solution_views(solutions@)[i],
                            ) * effort > u64::MAX,
                    decreases solutions@.len() - k,
                {
                    let bytes = solutions[k];
                    let sol_hash = crate::crypt::hash::Hash::digest(&bytes).to_bytes();
                    let value = hash_prefix_be(&sol_hash);
                    proof {
                        assert(solution_views(solutions@)[k as int] == bytes@);
                    }
                    if value.checked_mul(effort).is_some() {
                        let solution = vstd::slice::slice_to_vec(&bytes);
                        let sol = PowSolution { seed: seed.seed, nonce, solution };
                        proof {
                            assert(value * effort <= u64::MAX);
                            assert(value == solution_score(bytes@));
                            let sols = equix_solutions(challenge_bytes@)->0;
                            assert(sols[k as int] == bytes@);
                            assert(solution_score(sols[k as int]) * effort <= u64::MAX);
                            assert(nonce_solves(seed.seed@, effort, nonce));
                            assert(pow_solvable(seed.seed@, effort));
                        }
                        return Ok(sol);
                    }
                    k = k + 1;
                }
                proof {
                    let sols = equix_solutions(challenge_bytes@)->0;
                    assert forall|i: int| 0 <= i < sols.len() implies !(#[trigger] solution_score(
                        sols[i],
                    ) * effort <= u64::MAX) by {
                        assert(solution_score(solution_views(solutions@)[i]) * effort > u64::MAX);
                    }
                }
            },
            None => {},
        }
        proof {
            assert(!nonce_solves(seed.seed@, effort, nonce));
            assert(((start as int + attempts as int) % nonce_count()) as u64 == nonce);
        }
        if attempts == u64::MAX {
            proof {
                assert forall|n: u64| !nonce_solves(seed.seed@, effort, n) by {
                    let j: int = (n as int - start as int) % nonce_count();
                    assert(0 <= j < nonce_count());
                    assert((start as int + j) % nonce_count() == n as int) by {
                        vstd::arithmetic::div_mod::lemma_add_mod_noop(
                            start as int,
                            n as int - start as int,
                            nonce_count(),
                        );
                        vstd::arithmetic::div_mod::lemma_small_mod(n as nat, nonce_count() as nat);
                        vstd::arithmetic::div_mod::lemma_small_mod(start as nat, nonce_count() as nat);
                    }
                    if j < attempts {
                        assert(!nonce_solves(seed.seed@, effort, ((start as int + j) % nonce_count()) as u64));
                    }
                }
            }
            return Err(PowError::Exhausted);
        }
        nonce = nonce.wrapping_add(1);
        proof {
            vstd::arithmetic::div_mod::lemma_add_mod_noop(
                start as int + attempts as int,
                1,
                nonce_count(),
            );
            vstd::arithmetic::div_mod::lemma_small_mod(1, nonce_count() as nat);
        }
        attempts = attempts + 1;
    }
}

/// Solves the proof of work that the seed asks for.
pub fn solve_pow(seed: &PowSeed) -> (r: Result<PowSolution, PowError>)
    ensures
        match seed.algo {
            PowAlgo::EquiX { effort } => {
                &&& r is Ok <==> pow_solvable(seed.seed@, effort)
                &&& r matches Ok(sol) ==> pow_solution_valid(seed.seed@, effort, sol)
            },
        },
{
    match seed.algo {
        PowAlgo::EquiX { effort } => solve_equix_pow(seed, effort),
    }
}

} // verus!
