use rand::{Rng, SeedableRng};
use sqlite_rs::bitvec::{Bitvec, MAX_BITMAP_CAPACITY};

#[derive(Copy, Clone, Debug)]
enum TestInst {
    SetRange(usize, u32, usize),
    ClearRange(usize, u32, usize),
    SetRandom(usize),
    ClearRandom(usize),
}

use TestInst::{ClearRandom, ClearRange, SetRandom, SetRange};

fn set_bit(v: &mut [u8], i: u32) {
    v[i as usize >> 3] |= 1 << (i & 7)
}

fn clear_bit(v: &mut [u8], i: u32) {
    v[i as usize >> 3] &= !(1 << (i & 7))
}

fn test_bit(v: &mut [u8], i: u32) -> bool {
    v[i as usize >> 3] & (1 << (i & 7)) != 0
}

/// Runs the instructions on a set and on a plain bit array, then compares
/// every member.
fn run_test(sz: u32, instructions: &[TestInst]) {
    let mut bv = Bitvec::new(sz).unwrap();
    let mut ba = vec![0u8; (sz as usize + 7) / 8 + 1];
    let mut rng = rand::rngs::StdRng::seed_from_u64(32);

    for inst in instructions {
        match *inst {
            SetRange(n, start, inc) => {
                for i in (start..).step_by(inc).take(n) {
                    let i = (i % n as u32) + 1;
                    bv.set(i).unwrap();
                    set_bit(&mut ba, i);
                }
            }
            ClearRange(n, start, inc) => {
                for i in (start..).step_by(inc).take(n) {
                    let i = (i % n as u32) + 1;
                    bv.clear(i);
                    clear_bit(&mut ba, i);
                }
            }
            SetRandom(n) => {
                for _ in 0..n {
                    let i = rng.gen_range(1..=n as u32);
                    bv.set(i).unwrap();
                    set_bit(&mut ba, i);
                }
            }
            ClearRandom(n) => {
                for _ in 0..n {
                    let i = rng.gen_range(1..=n as u32);
                    bv.clear(i);
                    clear_bit(&mut ba, i);
                }
            }
        }
    }

    for i in 1..=sz {
        assert_eq!(test_bit(&mut ba, i), bv.test(i), "index {i}");
    }
}

#[test]
fn test_bitvec() {
    let cases = vec![
        (400, vec![SetRange(400, 1, 1)]),
        (4000, vec![SetRange(4000, 1, 1)]),
        (40000, vec![SetRange(40000, 1, 1)]),
        (400000, vec![SetRange(400000, 1, 1)]),
        (400, vec![SetRange(400, 1, 7)]),
        (4000, vec![SetRange(4000, 1, 7)]),
        (40000, vec![SetRange(40000, 1, 7)]),
        (400000, vec![SetRange(400000, 1, 7)]),
        (400, vec![SetRange(400, 1, 1), ClearRange(400, 1, 1)]),
        (4000, vec![SetRange(4000, 1, 1), ClearRange(4000, 1, 1)]),
        (40000, vec![SetRange(40000, 1, 1), ClearRange(40000, 1, 1)]),
        (
            400000,
            vec![SetRange(400000, 1, 1), ClearRange(400000, 1, 1)],
        ),
        (400, vec![SetRange(400, 1, 1), ClearRange(400, 1, 7)]),
        (4000, vec![SetRange(4000, 1, 1), ClearRange(4000, 1, 7)]),
        (40000, vec![SetRange(40000, 1, 1), ClearRange(40000, 1, 77)]),
        (
            400000,
            vec![SetRange(400000, 1, 1), ClearRange(400000, 1, 777)],
        ),
        (
            400000,
            vec![SetRange(5000, 100000, 1), ClearRange(400000, 1, 37)],
        ),
    ];

    for (sz, instructions) in cases {
        run_test(sz, &instructions);
    }
}

#[test]
fn test_bitvec_hash_collisions() {
    // Attempt to induce hash collisions
    for start in 1..=8 {
        for incr in 120..=130 {
            run_test(5000, &[SetRange(60, start, incr), ClearRange(5000, 1, 1)])
        }
    }
}

#[test]
fn test_bitvec_big_and_slow() {
    run_test(
        17000000,
        &[SetRange(17000000, 1, 1), ClearRange(17000000, 1, 1)],
    )
}

#[test]
fn test_bitvec_set_clear() {
    let cases = vec![
        (10, vec![SetRandom(5), ClearRandom(5)]),
        (4000, vec![SetRandom(2000), ClearRandom(2000)]),
        (
            4000,
            vec![
                SetRandom(1000),
                ClearRandom(1000),
                SetRandom(1000),
                ClearRandom(1000),
                SetRandom(1000),
                ClearRandom(1000),
                SetRandom(1000),
                ClearRandom(1000),
                SetRandom(1000),
                ClearRandom(1000),
                SetRandom(1000),
                ClearRandom(1000),
            ],
        ),
        (400000, vec![SetRandom(10)]),
        (4000, vec![SetRandom(10), ClearRange(4000, 1, 1)]),
        (5000, vec![SetRandom(20), ClearRange(5000, 1, 1)]),
        (50000, vec![SetRandom(60), ClearRange(50000, 1, 1)]),
        (
            5000,
            vec![
                SetRange(25, 121, 125),
                SetRange(50, 121, 125),
                ClearRange(25, 121, 125),
            ],
        ),
    ];

    for (sz, instructions) in cases {
        run_test(sz, &instructions);
    }
}

/// Capacities that start as a flat bitmap, as a hash table, and as a hash
/// table that soon subdivides.
const CAPACITIES: [u32; 4] = [10, MAX_BITMAP_CAPACITY, MAX_BITMAP_CAPACITY + 1, 100000];

#[test]
fn set_then_test_is_true() {
    for &cap in CAPACITIES.iter() {
        let mut bv = Bitvec::new(cap).unwrap();
        for i in [1, cap / 2 + 1, cap] {
            bv.set(i).unwrap();
            assert!(bv.test(i), "capacity {cap}, index {i}");
        }
    }
}

#[test]
fn clear_then_test_is_false() {
    for &cap in CAPACITIES.iter() {
        let mut bv = Bitvec::new(cap).unwrap();
        for i in 1..=cap.min(200) {
            bv.set(i).unwrap();
        }
        for i in [0, 1, 2, cap / 2 + 1, cap, cap + 1, u32::MAX] {
            bv.clear(i);
            assert!(!bv.test(i), "capacity {cap}, index {i}");
        }
        // Members that were not cleared stay.
        assert!(bv.test(3));
    }
}

#[test]
fn out_of_range_tests_are_false() {
    for &cap in CAPACITIES.iter() {
        let mut bv = Bitvec::new(cap).unwrap();
        for i in 1..=cap.min(300) {
            bv.set(i).unwrap();
        }
        bv.set(cap).unwrap();
        assert!(!bv.test(0));
        assert!(!bv.test(cap + 1));
        assert!(!bv.test(u32::MAX));
        assert!(bv.test(cap));
    }
}

#[test]
fn set_is_idempotent() {
    for &cap in CAPACITIES.iter() {
        let mut once = Bitvec::new(cap).unwrap();
        let mut twice = Bitvec::new(cap).unwrap();
        for i in (1..=cap).step_by(3) {
            once.set(i).unwrap();
            twice.set(i).unwrap();
            twice.set(i).unwrap();
        }
        for i in 0..=cap + 1 {
            assert_eq!(once.test(i), twice.test(i), "capacity {cap}, index {i}");
        }
    }
}

#[test]
fn hash_subdivides_without_losing_members() {
    // 100 members with one home slot each way round the table: the table
    // fills up and subdivides on the way.
    let cap = 50000;
    let mut bv = Bitvec::new(cap).unwrap();
    let members: Vec<u32> = (0..100).map(|k| 1 + k * 126).collect();
    for (n, &m) in members.iter().enumerate() {
        bv.set(m).unwrap();
        for &earlier in &members[..=n] {
            assert!(bv.test(earlier), "member {earlier} after {n} stores");
        }
    }
    for i in 1..=cap {
        assert_eq!(bv.test(i), members.contains(&i), "index {i}");
    }
    for &m in &members {
        bv.clear(m);
    }
    for i in 1..=cap {
        assert!(!bv.test(i), "index {i}");
    }
}

#[test]
fn stride_one_matches_oracle_along_the_way() {
    let cap: u32 = 400000;
    let mut bv = Bitvec::new(cap).unwrap();
    let mut oracle = vec![false; cap as usize + 1];
    let sample = [1u32, 2, 63, 64, 4064, 4065, 6349, 6350, 6351, 200000, 399999, 400000];
    for i in 1..=cap {
        bv.set(i).unwrap();
        oracle[i as usize] = true;
        if i % 9973 == 0 {
            for &s in &sample {
                assert_eq!(bv.test(s), oracle[s as usize], "after set {i}, index {s}");
            }
        }
    }
    for i in 1..=cap {
        bv.clear(i);
        oracle[i as usize] = false;
        if i % 9973 == 0 {
            for &s in &sample {
                assert_eq!(bv.test(s), oracle[s as usize], "after clear {i}, index {s}");
            }
        }
    }
    for i in 0..=cap + 1 {
        assert!(!bv.test(i), "index {i}");
    }
}

#[test]
fn random_sets_and_clears_match_oracle() {
    let cap: u32 = 4000;
    let mut bv = Bitvec::new(cap).unwrap();
    let mut oracle = vec![false; cap as usize + 1];
    let mut rng = rand::rngs::StdRng::seed_from_u64(7);
    for _ in 0..6 {
        for _ in 0..1000 {
            let i = rng.gen_range(1..=cap);
            bv.set(i).unwrap();
            oracle[i as usize] = true;
        }
        for _ in 0..1000 {
            let i = rng.gen_range(1..=cap);
            bv.clear(i);
            oracle[i as usize] = false;
        }
    }
    for i in 1..=cap {
        assert_eq!(bv.test(i), oracle[i as usize], "index {i}");
    }
}

#[test]
fn size_reports_capacity() {
    for cap in [0, 1, 8, 9, MAX_BITMAP_CAPACITY, MAX_BITMAP_CAPACITY + 1, 1 << 20, u32::MAX] {
        let bv = Bitvec::new(cap).unwrap();
        assert_eq!(bv.size(), cap);
        assert!(!bv.test(cap));
    }
}

#[test]
fn largest_capacity_holds_its_ends() {
    let mut bv = Bitvec::new(u32::MAX).unwrap();
    for i in [1, 2, u32::MAX / 2, u32::MAX - 1, u32::MAX] {
        bv.set(i).unwrap();
    }
    for i in (1..=200u32).map(|k| k * 21_474_836) {
        bv.set(i).unwrap();
    }
    assert!(bv.test(u32::MAX));
    assert!(bv.test(u32::MAX / 2));
    assert!(!bv.test(u32::MAX - 2));
    assert!(bv.test(200 * 21_474_836));
    bv.clear(u32::MAX);
    assert!(!bv.test(u32::MAX));
    assert!(bv.test(u32::MAX - 1));
}
