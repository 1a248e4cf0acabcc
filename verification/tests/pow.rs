
use xirtam::dirclient::pow::solve_pow;
use xirtam::structs::directory::{PowAlgo, PowSeed};
use xirtam::structs::timestamp::Timestamp;

#[test]
fn solve_pow_returns_valid_solution() {
    let seed = PowSeed {
        algo: PowAlgo::EquiX { effort: 100 },
        seed: xirtam::crypt::hash::Hash::from_bytes([7u8; 32]),
        use_before: Timestamp(0),
    };
    let solution = solve_pow(&seed).expect("solve pow");
    assert_eq!(solution.seed, seed.seed);
    assert_eq!(solution.solution.len(), equix::Solution::NUM_BYTES);
}
