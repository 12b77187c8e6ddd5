use deep_filter::util::{rng_uniform, seed_from_u64, thread_rng, ThreadSeed, UtilsError};
use rand::distr::{Distribution, Uniform};
use rand::{Rng, RngExt};
use rand_xoshiro::rand_core::SeedableRng;
use rand_xoshiro::Xoshiro256PlusPlus;
use std::time::Duration;

const WORD0: u64 = 0xd076_4d4f_4476_689f;
const WORD1: u64 = 0x519e_4174_576f_3791;
const WORD2: u64 = 0xfbe0_7cfb_0c24_ed8c;

struct Quiet;

impl log::Log for Quiet {
    fn enabled(&self, _: &log::Metadata) -> bool {
        false
    }
    fn log(&self, _: &log::Record) {}
    fn flush(&self) {}
}

fn seeded(x: u64) -> ThreadSeed {
    let mut t = ThreadSeed::new();
    seed_from_u64(&mut t, x);
    t
}

#[test]
fn generator_is_to_be_seeded() {
    let mut t = ThreadSeed::new();
    let error = thread_rng(&mut t).err().unwrap();
    assert!(matches!(error, UtilsError::SeedNotInitialized));
    assert_eq!(error.message(), "Random seed is not initialized using seed_from_u64(x)");
    assert!(matches!(
        rng_uniform(&mut t, 3, 0i32, 9),
        Err(UtilsError::SeedNotInitialized)
    ));
    seed_from_u64(&mut t, 1);
    assert!(thread_rng(&mut t).is_ok());
}

#[test]
fn logger_errors_convert() {
    log::set_logger(&Quiet).unwrap();
    let error = UtilsError::from(log::set_logger(&Quiet).unwrap_err());
    assert!(matches!(error, UtilsError::SetLoggerError(_)));
    assert_eq!(error.message(), "Could not inititalize logger");
}

#[test]
fn words_of_a_seed() {
    let mut t = seeded(42);
    let rng = thread_rng(&mut t).unwrap();
    let mut reference = Xoshiro256PlusPlus::seed_from_u64(42);
    for _ in 0..100 {
        assert_eq!(rng.try_next_u64(), reference.next_u64());
    }
}

#[test]
fn first_words_of_seed_42() {
    let mut t = seeded(42);
    let rng = thread_rng(&mut t).unwrap();
    assert_eq!(rng.try_next_u64(), WORD0);
    assert_eq!(rng.try_next_u32(), (WORD1 >> 32) as u32);
    let mut bytes = [0u8; 3];
    rng.try_fill_bytes(&mut bytes);
    assert_eq!(bytes, WORD2.to_le_bytes()[..3]);
}

#[test]
fn half_words_are_upper_halves() {
    let mut a = seeded(7);
    let mut b = seeded(7);
    for _ in 0..20 {
        let word = thread_rng(&mut a).unwrap().try_next_u64();
        let half = thread_rng(&mut b).unwrap().try_next_u32();
        assert_eq!(half, (word >> 32) as u32);
    }
}

#[test]
fn filling_draws_whole_words() {
    for n in [0usize, 1, 7, 8, 9, 16, 20] {
        let mut a = seeded(3);
        let mut b = seeded(3);
        let mut bytes = vec![0u8; n];
        thread_rng(&mut a).unwrap().try_fill_bytes(&mut bytes);
        let mut expected = Vec::new();
        while expected.len() < n {
            expected.extend(thread_rng(&mut b).unwrap().try_next_u64().to_le_bytes());
        }
        expected.truncate(n);
        assert_eq!(bytes, expected);
        assert_eq!(
            thread_rng(&mut a).unwrap().try_next_u64(),
            thread_rng(&mut b).unwrap().try_next_u64()
        );
    }
}

#[test]
fn seeding_starts_over() {
    let mut t = seeded(5);
    let first = thread_rng(&mut t).unwrap().try_next_u64();
    let second = thread_rng(&mut t).unwrap().try_next_u64();
    assert_ne!(first, second);
    seed_from_u64(&mut t, 5);
    assert_eq!(thread_rng(&mut t).unwrap().try_next_u64(), first);
    seed_from_u64(&mut t, 6);
    assert_ne!(thread_rng(&mut t).unwrap().try_next_u64(), first);
}

#[test]
fn ranges_are_kept() {
    let mut t = seeded(11);
    let rng = thread_rng(&mut t).unwrap();
    let mut seen = [false; 4];
    for _ in 0..200 {
        let v = rng.uniform(-2i32, 2);
        assert!((-2..2).contains(&v));
        seen[(v + 2) as usize] = true;
    }
    assert_eq!(seen, [true; 4]);
    let mut last = false;
    for _ in 0..200 {
        let v = rng.uniform_inclusive(10u64, 12);
        assert!((10..=12).contains(&v));
        last = last || v == 12;
    }
    assert!(last);
}

#[test]
fn draws_are_those_of_the_outside_generator() {
    let mut t = seeded(99);
    let mut reference = Xoshiro256PlusPlus::seed_from_u64(99);
    for _ in 0..50 {
        let rng = thread_rng(&mut t).unwrap();
        assert_eq!(rng.uniform(0i32, 1000), reference.random_range(0i32..1000));
        assert_eq!(rng.uniform_inclusive(-5i32, 5), reference.random_range(-5i32..=5));
        assert_eq!(rng.uniform(3u64, 1 << 40), reference.random_range(3u64..1 << 40));
        assert_eq!(
            rng.uniform_inclusive(0u64, u64::MAX),
            reference.random_range(0u64..=u64::MAX)
        );
    }
}

#[test]
fn half_open_and_closed_ranges_agree() {
    let mut a = seeded(4);
    let mut b = seeded(4);
    for _ in 0..50 {
        assert_eq!(
            thread_rng(&mut a).unwrap().uniform(0i32, 10),
            thread_rng(&mut b).unwrap().uniform_inclusive(0i32, 9)
        );
    }
}

#[test]
fn empty_ranges_draw_nothing() {
    let mut t = seeded(8);
    let rng = thread_rng(&mut t).unwrap();
    assert_eq!(rng.uniform(5i32, 5), 5);
    assert_eq!(rng.uniform(5i32, 3), 5);
    assert_eq!(rng.uniform_inclusive(7u64, 7), 7);
    assert_eq!(rng.uniform_inclusive(7u64, 1), 7);
    let word = rng.try_next_u64();
    let mut fresh = seeded(8);
    assert_eq!(thread_rng(&mut fresh).unwrap().try_next_u64(), word);
}

#[test]
fn uniform_samples() {
    let mut t = seeded(21);
    let v = rng_uniform(&mut t, 100, -3i32, 3).unwrap();
    let mut reference = Xoshiro256PlusPlus::seed_from_u64(21);
    let dist = Uniform::new_inclusive(-3i32, 3).unwrap();
    let expected: Vec<i32> = (0..100).map(|_| dist.sample(&mut reference)).collect();
    assert_eq!(v, expected);
    let w = rng_uniform(&mut t, 10, 0u64, 1 << 50).unwrap();
    let dist = Uniform::new_inclusive(0u64, 1 << 50).unwrap();
    let expected: Vec<u64> = (0..10).map(|_| dist.sample(&mut reference)).collect();
    assert_eq!(w, expected);
    assert_eq!(rng_uniform(&mut t, 0, 0u64, 1).unwrap(), vec![]);
}

#[test]
fn more_samples_keep_the_first() {
    let few = rng_uniform(&mut seeded(2), 5, 0i32, 100).unwrap();
    let many = rng_uniform(&mut seeded(2), 50, 0i32, 100).unwrap();
    assert_eq!(many[..5], few);
}

#[test]
fn draws_of_u8() {
    let mut t = seeded(31);
    let mut reference = Xoshiro256PlusPlus::seed_from_u64(31);
    for _ in 0..50 {
        let rng = thread_rng(&mut t).unwrap();
        assert_eq!(rng.uniform(3u8, 200), reference.random_range(3u8..200));
        assert_eq!(rng.uniform_inclusive(3u8, 200), reference.random_range(3u8..=200));
        assert_eq!(
            rng.uniform_inclusive(u8::MIN, u8::MAX),
            reference.random_range(u8::MIN..=u8::MAX)
        );
    }
    assert_eq!(thread_rng(&mut t).unwrap().uniform(200u8, 3), 200);
    let v = rng_uniform(&mut t, 20, 3u8, 200).unwrap();
    let dist = Uniform::new_inclusive(3u8, 200).unwrap();
    let expected: Vec<u8> = (0..20).map(|_| dist.sample(&mut reference)).collect();
    assert_eq!(v, expected);
}

#[test]
fn draws_of_u16() {
    let mut t = seeded(31);
    let mut reference = Xoshiro256PlusPlus::seed_from_u64(31);
    for _ in 0..50 {
        let rng = thread_rng(&mut t).unwrap();
        assert_eq!(rng.uniform(3u16, 60_000), reference.random_range(3u16..60_000));
        assert_eq!(rng.uniform_inclusive(3u16, 60_000), reference.random_range(3u16..=60_000));
        assert_eq!(
            rng.uniform_inclusive(u16::MIN, u16::MAX),
            reference.random_range(u16::MIN..=u16::MAX)
        );
    }
    assert_eq!(thread_rng(&mut t).unwrap().uniform(60_000u16, 3), 60_000);
    let v = rng_uniform(&mut t, 20, 3u16, 60_000).unwrap();
    let dist = Uniform::new_inclusive(3u16, 60_000).unwrap();
    let expected: Vec<u16> = (0..20).map(|_| dist.sample(&mut reference)).collect();
    assert_eq!(v, expected);
}

#[test]
fn draws_of_u32() {
    let mut t = seeded(31);
    let mut reference = Xoshiro256PlusPlus::seed_from_u64(31);
    for _ in 0..50 {
        let rng = thread_rng(&mut t).unwrap();
        assert_eq!(rng.uniform(3u32, 4_000_000_000), reference.random_range(3u32..4_000_000_000));
        assert_eq!(rng.uniform_inclusive(3u32, 4_000_000_000), reference.random_range(3u32..=4_000_000_000));
        assert_eq!(
            rng.uniform_inclusive(u32::MIN, u32::MAX),
            reference.random_range(u32::MIN..=u32::MAX)
        );
    }
    assert_eq!(thread_rng(&mut t).unwrap().uniform(4_000_000_000u32, 3), 4_000_000_000);
    let v = rng_uniform(&mut t, 20, 3u32, 4_000_000_000).unwrap();
    let dist = Uniform::new_inclusive(3u32, 4_000_000_000).unwrap();
    let expected: Vec<u32> = (0..20).map(|_| dist.sample(&mut reference)).collect();
    assert_eq!(v, expected);
}

#[test]
fn draws_of_u64() {
    let mut t = seeded(31);
    let mut reference = Xoshiro256PlusPlus::seed_from_u64(31);
    for _ in 0..50 {
        let rng = thread_rng(&mut t).unwrap();
        assert_eq!(rng.uniform(3u64, 1_000_000_000_000), reference.random_range(3u64..1_000_000_000_000));
        assert_eq!(rng.uniform_inclusive(3u64, 1_000_000_000_000), reference.random_range(3u64..=1_000_000_000_000));
        assert_eq!(
            rng.uniform_inclusive(u64::MIN, u64::MAX),
            reference.random_range(u64::MIN..=u64::MAX)
        );
    }
    assert_eq!(thread_rng(&mut t).unwrap().uniform(1_000_000_000_000u64, 3), 1_000_000_000_000);
    let v = rng_uniform(&mut t, 20, 3u64, 1_000_000_000_000).unwrap();
    let dist = Uniform::new_inclusive(3u64, 1_000_000_000_000).unwrap();
    let expected: Vec<u64> = (0..20).map(|_| dist.sample(&mut reference)).collect();
    assert_eq!(v, expected);
}

#[test]
fn draws_of_u128() {
    let mut t = seeded(31);
    let mut reference = Xoshiro256PlusPlus::seed_from_u64(31);
    for _ in 0..50 {
        let rng = thread_rng(&mut t).unwrap();
        assert_eq!(rng.uniform(3u128, 1_000_000_000_000_000_000_000_000), reference.random_range(3u128..1_000_000_000_000_000_000_000_000));
        assert_eq!(rng.uniform_inclusive(3u128, 1_000_000_000_000_000_000_000_000), reference.random_range(3u128..=1_000_000_000_000_000_000_000_000));
        assert_eq!(
            rng.uniform_inclusive(u128::MIN, u128::MAX),
            reference.random_range(u128::MIN..=u128::MAX)
        );
    }
    assert_eq!(thread_rng(&mut t).unwrap().uniform(1_000_000_000_000_000_000_000_000u128, 3), 1_000_000_000_000_000_000_000_000);
    let v = rng_uniform(&mut t, 20, 3u128, 1_000_000_000_000_000_000_000_000).unwrap();
    let dist = Uniform::new_inclusive(3u128, 1_000_000_000_000_000_000_000_000).unwrap();
    let expected: Vec<u128> = (0..20).map(|_| dist.sample(&mut reference)).collect();
    assert_eq!(v, expected);
}

#[test]
fn draws_of_usize() {
    let mut t = seeded(31);
    let mut reference = Xoshiro256PlusPlus::seed_from_u64(31);
    for _ in 0..50 {
        let rng = thread_rng(&mut t).unwrap();
        assert_eq!(rng.uniform(3usize, 70_000), reference.random_range(3usize..70_000));
        assert_eq!(rng.uniform_inclusive(3usize, 70_000), reference.random_range(3usize..=70_000));
        assert_eq!(
            rng.uniform_inclusive(usize::MIN, usize::MAX),
            reference.random_range(usize::MIN..=usize::MAX)
        );
    }
    assert_eq!(thread_rng(&mut t).unwrap().uniform(70_000usize, 3), 70_000);
    let v = rng_uniform(&mut t, 20, 3usize, 70_000).unwrap();
    let dist = Uniform::new_inclusive(3usize, 70_000).unwrap();
    let expected: Vec<usize> = (0..20).map(|_| dist.sample(&mut reference)).collect();
    assert_eq!(v, expected);
}

#[test]
fn draws_of_i8() {
    let mut t = seeded(31);
    let mut reference = Xoshiro256PlusPlus::seed_from_u64(31);
    for _ in 0..50 {
        let rng = thread_rng(&mut t).unwrap();
        assert_eq!(rng.uniform(-100i8, 100), reference.random_range(-100i8..100));
        assert_eq!(rng.uniform_inclusive(-100i8, 100), reference.random_range(-100i8..=100));
        assert_eq!(
            rng.uniform_inclusive(i8::MIN, i8::MAX),
            reference.random_range(i8::MIN..=i8::MAX)
        );
    }
    assert_eq!(thread_rng(&mut t).unwrap().uniform(100i8, -100), 100);
    let v = rng_uniform(&mut t, 20, -100i8, 100).unwrap();
    let dist = Uniform::new_inclusive(-100i8, 100).unwrap();
    let expected: Vec<i8> = (0..20).map(|_| dist.sample(&mut reference)).collect();
    assert_eq!(v, expected);
}

#[test]
fn draws_of_i16() {
    let mut t = seeded(31);
    let mut reference = Xoshiro256PlusPlus::seed_from_u64(31);
    for _ in 0..50 {
        let rng = thread_rng(&mut t).unwrap();
        assert_eq!(rng.uniform(-30_000i16, 30_000), reference.random_range(-30_000i16..30_000));
        assert_eq!(rng.uniform_inclusive(-30_000i16, 30_000), reference.random_range(-30_000i16..=30_000));
        assert_eq!(
            rng.uniform_inclusive(i16::MIN, i16::MAX),
            reference.random_range(i16::MIN..=i16::MAX)
        );
    }
    assert_eq!(thread_rng(&mut t).unwrap().uniform(30_000i16, -30_000), 30_000);
    let v = rng_uniform(&mut t, 20, -30_000i16, 30_000).unwrap();
    let dist = Uniform::new_inclusive(-30_000i16, 30_000).unwrap();
    let expected: Vec<i16> = (0..20).map(|_| dist.sample(&mut reference)).collect();
    assert_eq!(v, expected);
}

#[test]
fn draws_of_i32() {
    let mut t = seeded(31);
    let mut reference = Xoshiro256PlusPlus::seed_from_u64(31);
    for _ in 0..50 {
        let rng = thread_rng(&mut t).unwrap();
        assert_eq!(rng.uniform(-2_000_000_000i32, 2_000_000_000), reference.random_range(-2_000_000_000i32..2_000_000_000));
        assert_eq!(rng.uniform_inclusive(-2_000_000_000i32, 2_000_000_000), reference.random_range(-2_000_000_000i32..=2_000_000_000));
        assert_eq!(
            rng.uniform_inclusive(i32::MIN, i32::MAX),
            reference.random_range(i32::MIN..=i32::MAX)
        );
    }
    assert_eq!(thread_rng(&mut t).unwrap().uniform(2_000_000_000i32, -2_000_000_000), 2_000_000_000);
    let v = rng_uniform(&mut t, 20, -2_000_000_000i32, 2_000_000_000).unwrap();
    let dist = Uniform::new_inclusive(-2_000_000_000i32, 2_000_000_000).unwrap();
    let expected: Vec<i32> = (0..20).map(|_| dist.sample(&mut reference)).collect();
    assert_eq!(v, expected);
}

#[test]
fn draws_of_i64() {
    let mut t = seeded(31);
    let mut reference = Xoshiro256PlusPlus::seed_from_u64(31);
    for _ in 0..50 {
        let rng = thread_rng(&mut t).unwrap();
        assert_eq!(rng.uniform(-1_000_000_000_000i64, 1_000_000_000_000), reference.random_range(-1_000_000_000_000i64..1_000_000_000_000));
        assert_eq!(rng.uniform_inclusive(-1_000_000_000_000i64, 1_000_000_000_000), reference.random_range(-1_000_000_000_000i64..=1_000_000_000_000));
        assert_eq!(
            rng.uniform_inclusive(i64::MIN, i64::MAX),
            reference.random_range(i64::MIN..=i64::MAX)
        );
    }
    assert_eq!(thread_rng(&mut t).unwrap().uniform(1_000_000_000_000i64, -1_000_000_000_000), 1_000_000_000_000);
    let v = rng_uniform(&mut t, 20, -1_000_000_000_000i64, 1_000_000_000_000).unwrap();
    let dist = Uniform::new_inclusive(-1_000_000_000_000i64, 1_000_000_000_000).unwrap();
    let expected: Vec<i64> = (0..20).map(|_| dist.sample(&mut reference)).collect();
    assert_eq!(v, expected);
}

#[test]
fn draws_of_i128() {
    let mut t = seeded(31);
    let mut reference = Xoshiro256PlusPlus::seed_from_u64(31);
    for _ in 0..50 {
        let rng = thread_rng(&mut t).unwrap();
        assert_eq!(rng.uniform(-1_000_000_000_000_000_000_000_000i128, 1_000_000_000_000_000_000_000_000), reference.random_range(-1_000_000_000_000_000_000_000_000i128..1_000_000_000_000_000_000_000_000));
        assert_eq!(rng.uniform_inclusive(-1_000_000_000_000_000_000_000_000i128, 1_000_000_000_000_000_000_000_000), reference.random_range(-1_000_000_000_000_000_000_000_000i128..=1_000_000_000_000_000_000_000_000));
        assert_eq!(
            rng.uniform_inclusive(i128::MIN, i128::MAX),
            reference.random_range(i128::MIN..=i128::MAX)
        );
    }
    assert_eq!(thread_rng(&mut t).unwrap().uniform(1_000_000_000_000_000_000_000_000i128, -1_000_000_000_000_000_000_000_000), 1_000_000_000_000_000_000_000_000);
    let v = rng_uniform(&mut t, 20, -1_000_000_000_000_000_000_000_000i128, 1_000_000_000_000_000_000_000_000).unwrap();
    let dist = Uniform::new_inclusive(-1_000_000_000_000_000_000_000_000i128, 1_000_000_000_000_000_000_000_000).unwrap();
    let expected: Vec<i128> = (0..20).map(|_| dist.sample(&mut reference)).collect();
    assert_eq!(v, expected);
}

#[test]
fn usize_is_drawn_as_a_narrow_or_a_wide_integer() {
    let mut a = seeded(6);
    let mut b = seeded(6);
    for _ in 0..20 {
        let narrow = thread_rng(&mut a).unwrap().uniform(0usize, 1000);
        assert_eq!(narrow, thread_rng(&mut b).unwrap().uniform(0u32, 1000) as usize);
        let wide = thread_rng(&mut a).unwrap().uniform_inclusive(0usize, 1 << 40);
        assert_eq!(wide, thread_rng(&mut b).unwrap().uniform_inclusive(0u64, 1 << 40) as usize);
    }
}

#[test]
fn draws_join() {
    let mut t = seeded(12);
    let mut twice = rng_uniform(&mut t, 4, 0u64, 99).unwrap();
    twice.extend(rng_uniform(&mut t, 6, 0u64, 99).unwrap());
    assert_eq!(twice, rng_uniform(&mut seeded(12), 10, 0u64, 99).unwrap());
}

#[test]
fn fills_join_after_whole_words() {
    let mut t = seeded(13);
    let mut bytes = [0u8; 21];
    thread_rng(&mut t).unwrap().try_fill_bytes(&mut bytes[..16]);
    thread_rng(&mut t).unwrap().try_fill_bytes(&mut bytes[16..]);
    let mut once = [0u8; 21];
    thread_rng(&mut seeded(13)).unwrap().try_fill_bytes(&mut once);
    assert_eq!(bytes, once);
}

#[test]
fn draws_of_char() {
    let mut t = seeded(41);
    let mut reference = Xoshiro256PlusPlus::seed_from_u64(41);
    for _ in 0..50 {
        let rng = thread_rng(&mut t).unwrap();
        assert_eq!(rng.uniform('a', 'z'), reference.random_range('a'..'z'));
        let v = rng.uniform_inclusive('\u{d7f0}', '\u{e010}');
        assert_eq!(v, reference.random_range('\u{d7f0}'..='\u{e010}'));
    }
    let rng = thread_rng(&mut t).unwrap();
    assert_eq!(rng.uniform('\u{d7ff}', '\u{e000}'), '\u{d7ff}');
    reference.random_range('\u{d7ff}'..'\u{e000}');
    assert_eq!(rng.uniform('z', 'a'), 'z');
    let v = rng_uniform(&mut t, 20, 'A', 'Z').unwrap();
    let dist = Uniform::new_inclusive('A', 'Z').unwrap();
    let expected: Vec<char> = (0..20).map(|_| dist.sample(&mut reference)).collect();
    assert_eq!(v, expected);
}

#[test]
fn characters_are_drawn_by_their_numbers() {
    let mut a = seeded(42);
    let mut b = seeded(42);
    let chars = rng_uniform(&mut a, 30, '\u{d700}', '\u{e100}').unwrap();
    let numbers = rng_uniform(&mut b, 30, 0xd700u32, 0xe100 - 0x800).unwrap();
    for (c, n) in chars.iter().zip(numbers) {
        let c = *c as u32;
        assert_eq!(if c >= 0xe000 { c - 0x800 } else { c }, n);
    }
}

#[test]
fn draws_of_time_spans() {
    let mut t = seeded(43);
    let mut reference = Xoshiro256PlusPlus::seed_from_u64(43);
    let spans = [
        (Duration::from_nanos(3), Duration::from_millis(5)),
        (Duration::from_millis(900), Duration::from_secs(70)),
        (Duration::from_millis(1), Duration::MAX),
    ];
    for _ in 0..20 {
        for (low, high) in spans {
            let rng = thread_rng(&mut t).unwrap();
            assert_eq!(rng.uniform(low, high), reference.random_range(low..high));
            assert_eq!(rng.uniform_inclusive(low, high), reference.random_range(low..=high));
            assert_eq!(rng.uniform(high, low), high);
        }
    }
    let (low, high) = spans[1];
    let v = rng_uniform(&mut t, 20, low, high).unwrap();
    let dist = Uniform::new_inclusive(low, high).unwrap();
    let expected: Vec<Duration> = (0..20).map(|_| dist.sample(&mut reference)).collect();
    assert_eq!(v, expected);
}
