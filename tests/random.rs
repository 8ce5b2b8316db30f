use bsk_keygen::random::{EncryptionRandomGenerator, ForkConfig, ForkError, RandomSubstream};

#[test]
fn fork_hands_out_consecutive_windows() {
    let mut gen = EncryptionRandomGenerator { seed: 17, position: 10 };
    let cfg = ForkConfig { children: 3, words_per_child: 5 };
    let children = gen.try_fork_from_config(cfg).unwrap();
    assert_eq!(
        children,
        vec![
            RandomSubstream { seed: 17, start: 10, len: 5 },
            RandomSubstream { seed: 17, start: 15, len: 5 },
            RandomSubstream { seed: 17, start: 20, len: 5 },
        ]
    );
    assert_eq!(gen.position, 25);
}

#[test]
fn parallel_fork_equals_sequential_fork() {
    let mut a = EncryptionRandomGenerator { seed: 3, position: 1000 };
    let mut b = a;
    let cfg = ForkConfig { children: 50, words_per_child: 7 };
    assert_eq!(a.try_fork_from_config(cfg), b.par_try_fork_from_config(cfg));
    assert_eq!(a, b);
    assert_eq!(b.substream_at(cfg, 2).start, 1000 + 50 * 7 + 14);
}

#[test]
fn fork_beyond_the_counter_space_fails() {
    let start = EncryptionRandomGenerator { seed: 3, position: u64::MAX - 10 };
    let mut gen = start;
    let cfg = ForkConfig { children: 3, words_per_child: 4 };
    assert_eq!(gen.try_fork_from_config(cfg), Err(ForkError::InsufficientEntropyConfiguration));
    assert_eq!(gen.par_try_fork_from_config(cfg), Err(ForkError::InsufficientEntropyConfiguration));
    assert_eq!(gen, start);
    let cfg = ForkConfig { children: usize::MAX, words_per_child: u64::MAX };
    assert_eq!(gen.try_fork_from_config(cfg), Err(ForkError::InsufficientEntropyConfiguration));
}

#[test]
fn fork_up_to_the_last_word_succeeds() {
    let mut gen = EncryptionRandomGenerator { seed: 3, position: u64::MAX - 12 };
    let cfg = ForkConfig { children: 3, words_per_child: 4 };
    let children = gen.try_fork_from_config(cfg).unwrap();
    assert_eq!(children.len(), 3);
    assert_eq!(gen.position, u64::MAX);
}
