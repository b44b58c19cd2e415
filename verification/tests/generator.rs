use disk_spinner::generator::{to_shishua_seed, ShishuaGenerator};
use rand::RngCore;
use std::io::Read as _;

#[test]
fn maps_disk_spinner_seed_like_the_old_cli_wrapper() {
    assert_eq!(
        to_shishua_seed(0x1234_5678_9ABC_DEF0),
        [0x1234_5678_9ABC_DEF0, 0, 0, 0]
    );
}

#[test]
fn produces_repeatable_output_for_the_same_seed() {
    let mut first = ShishuaGenerator::new(0x1234_5678_9ABC_DEF0);
    let mut second = ShishuaGenerator::new(0x1234_5678_9ABC_DEF0);
    let mut first_bytes = [0; 257];
    let mut second_bytes = [0; 257];

    first.read_exact(&mut first_bytes).unwrap();
    second.read_exact(&mut second_bytes).unwrap();

    assert_eq!(first_bytes, second_bytes);
}

#[test]
fn consumes_successive_bytes_across_reads() {
    let mut one_read = ShishuaGenerator::new(42);
    let mut split_reads = ShishuaGenerator::new(42);
    let mut expected = [0; 128];
    let mut actual = [0; 128];

    one_read.read_exact(&mut expected).unwrap();
    split_reads.read_exact(&mut actual[..17]).unwrap();
    split_reads.read_exact(&mut actual[17..]).unwrap();

    assert_eq!(actual, expected);
}

#[test]
fn stream_is_the_shishua_stream_of_the_seed_words() {
    let mut generator = ShishuaGenerator::new(7);
    let mut reference = shishua::ShiShuARng::new([7, 0, 0, 0]);
    let mut got = [0u8; 300];
    let mut want = [0u8; 300];
    generator.read_bytes(&mut got);
    reference.fill_bytes(&mut want);
    assert_eq!(got, want);
    assert!(got.iter().any(|b| *b != 0));
}

#[test]
fn different_seeds_give_different_bytes() {
    let mut a = ShishuaGenerator::new(1);
    let mut b = ShishuaGenerator::new(2);
    let mut bytes_a = [0u8; 64];
    let mut bytes_b = [0u8; 64];
    a.read_bytes(&mut bytes_a);
    b.read_bytes(&mut bytes_b);
    assert_ne!(bytes_a, bytes_b);
}

#[test]
fn empty_read_writes_nothing_and_keeps_the_position() {
    let mut a = ShishuaGenerator::new(9);
    let mut b = ShishuaGenerator::new(9);
    let mut nothing: [u8; 0] = [];
    assert_eq!(a.read_bytes(&mut nothing), 0);
    let mut bytes_a = [0u8; 32];
    let mut bytes_b = [0u8; 32];
    a.read_bytes(&mut bytes_a);
    b.read_bytes(&mut bytes_b);
    assert_eq!(bytes_a, bytes_b);
}

#[test]
fn later_reads_continue_the_stream() {
    let mut whole = ShishuaGenerator::new(3);
    let mut parts = ShishuaGenerator::new(3);
    let mut all = [0u8; 600];
    whole.read_bytes(&mut all);
    let mut chunk = [0u8; 200];
    for i in 0..3 {
        parts.read_bytes(&mut chunk);
        assert_eq!(&chunk[..], &all[i * 200..(i + 1) * 200]);
    }
}

#[test]
fn io_read_fills_the_whole_buffer() {
    let mut g = ShishuaGenerator::new(11);
    let mut h = ShishuaGenerator::new(11);
    let mut a = [0u8; 40];
    let mut b = [0u8; 40];
    assert_eq!(std::io::Read::read(&mut g, &mut a).unwrap(), 40);
    assert_eq!(h.read_bytes(&mut b), 40);
    assert_eq!(a, b);
}

#[test]
fn many_reads_of_various_lengths_give_the_seed_stream() {
    let lens = [0usize, 1, 7, 128, 129, 3, 256];
    let total: usize = lens.iter().sum();
    let mut reference = shishua::ShiShuARng::new([5, 0, 0, 0]);
    let mut want = vec![0u8; total];
    reference.fill_bytes(&mut want);
    let mut g = ShishuaGenerator::new(5);
    let mut h = ShishuaGenerator::new(5);
    let mut got = Vec::new();
    for n in lens {
        let mut a = vec![0u8; n];
        let mut b = vec![0u8; n];
        assert_eq!(g.read_bytes(&mut a), n);
        assert_eq!(h.read_bytes(&mut b), n);
        assert_eq!(a, b);
        got.extend_from_slice(&a);
    }
    assert_eq!(got, want);
}
