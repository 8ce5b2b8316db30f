//! A forkable random stream.
//!
//! A generator is a master seed and a position in a counter space of 64-bit
//! words. Forking hands out consecutive, disjoint windows of that space, one
//! per child, so that child `i` depends only on the seed, the position at the
//! time of the fork and `i`.
use vstd::prelude::*;

verus! {

/// The number of 64-bit words that a single seed can address.
pub const WORD_SPACE: u64 = 0xffff_ffff_ffff_ffff;

/// The root randomness stream of an encryption.
#[derive(Clone, Copy, Debug, PartialEq, Eq)]
pub struct EncryptionRandomGenerator {
    pub seed: u128,
    /// First word of the counter space that has not been handed out yet.
    pub position: u64,
}

/// How many independent children a fork produces and how many words each one
/// may consume.
#[derive(Clone, Copy, Debug, PartialEq, Eq)]
pub struct ForkConfig {
    pub children: usize,
    pub words_per_child: u64,
}

/// One child of a fork: the window `[start, start + len)` of the counter space
/// of `seed`.
#[derive(Clone, Copy, Debug, PartialEq, Eq)]
pub struct RandomSubstream {
    pub seed: u128,
    pub start: u64,
    pub len: u64,
}

#[derive(Clone, Copy, Debug, PartialEq, Eq)]
pub enum ForkError {
    /// The requested fork does not fit in what is left of the counter space.
    InsufficientEntropyConfiguration,
}

/// The number of words that a fork hands out in total.
pub open spec fn fork_words(cfg: ForkConfig) -> int {
    cfg.children * cfg.words_per_child
}

/// Whether `cfg` can be served from the remaining counter space of `g`.
pub open spec fn fork_fits(g: EncryptionRandomGenerator, cfg: ForkConfig) -> bool {
    g.position + fork_words(cfg) <= WORD_SPACE
}

/// The `i`-th child of forking `g` with `cfg`.
pub open spec fn forked_substream(
    g: EncryptionRandomGenerator,
    cfg: ForkConfig,
    i: int,
) -> RandomSubstream {
    RandomSubstream {
        seed: g.seed,
        start: (g.position + i * cfg.words_per_child) as u64,
        len: cfg.words_per_child,
    }
}

/// The generator once a fork with `cfg` has been served.
pub open spec fn advanced(g: EncryptionRandomGenerator, cfg: ForkConfig) -> EncryptionRandomGenerator {
    EncryptionRandomGenerator { seed: g.seed, position: (g.position + fork_words(cfg)) as u64 }
}

/// The children of a fork, in order.
pub open spec fn is_fork_of(
    s: Seq<RandomSubstream>,
    g: EncryptionRandomGenerator,
    cfg: ForkConfig,
) -> bool {
    &&& s.len() == cfg.children
    &&& forall|i: int| 0 <= i < s.len() ==> #[trigger] s[i] == forked_substream(g, cfg, i)
}

/// The whole effect of a fork request on the generator and on what it returns.
pub open spec fn fork_outcome(
    g: EncryptionRandomGenerator,
    cfg: ForkConfig,
    g2: EncryptionRandomGenerator,
    r: Result<Vec<RandomSubstream>, ForkError>,
) -> bool {
    if fork_fits(g, cfg) {
        &&& r is Ok
        &&& is_fork_of(r->Ok_0@, g, cfg)
        &&& g2 == advanced(g, cfg)
    } else {
        &&& r == Err::<Vec<RandomSubstream>, ForkError>(ForkError::InsufficientEntropyConfiguration)
        &&& g2 == g
    }
}

proof fn lemma_child_window(g: EncryptionRandomGenerator, cfg: ForkConfig, i: int)
    requires
        fork_fits(g, cfg),
        0 <= i < cfg.children,
    ensures
        g.position + i * cfg.words_per_child + cfg.words_per_child <= WORD_SPACE,
{
    assert(i * cfg.words_per_child + cfg.words_per_child <= cfg.children * cfg.words_per_child)
        by (nonlinear_arith)
        requires
            0 <= i < cfg.children,
            cfg.words_per_child >= 0,
    ;
}

impl EncryptionRandomGenerator {
    /// A generator at the start of the counter space of `seed`.
    pub fn new(seed: u128) -> (r: EncryptionRandomGenerator)
        ensures
            r.seed == seed,
            r.position == 0,
    {
        EncryptionRandomGenerator { seed, position: 0 }
    }

    /// The total number of words of a fork, if it fits in the counter space.
    fn fork_total(&self, cfg: ForkConfig) -> (r: Option<u64>)
        ensures
            r is Some <==> fork_fits(*self, cfg),
            r is Some ==> r->Some_0 == fork_words(cfg),
    {
        let children = cfg.children as u64;
        match children.checked_mul(cfg.words_per_child) {
            Some(total) => {
                if total <= WORD_SPACE - self.position {
                    Some(total)
                } else {
                    None
                }
            },
            None => {
                assert(fork_words(cfg) > WORD_SPACE);
                None
            },
        }
    }

    /// Splits the stream into `cfg.children` children, each of
    /// `cfg.words_per_child` words, handing them out in order and advancing
    /// the stream past them.
    pub fn try_fork_from_config(&mut self, cfg: ForkConfig) -> (r: Result<
        Vec<RandomSubstream>,
        ForkError,
    >)
        ensures
            fork_outcome(*old(self), cfg, *final(self), r),
    {
        let total = match self.fork_total(cfg) {
            Some(t) => t,
            None => return Err(ForkError::InsufficientEntropyConfiguration),
        };
        let mut children: Vec<RandomSubstream> = Vec::new();
        let mut start: u64 = self.position;
        let mut i: usize = 0;
        while i < cfg.children
            invariant
                fork_fits(*self, cfg),
                i <= cfg.children,
                start == self.position + i * cfg.words_per_child,
                children@.len() == i,
                forall|j: int| 0 <= j < i ==> #[trigger] children@[j] == forked_substream(*self, cfg, j),
            decreases cfg.children - i,
        {
            proof {
                lemma_child_window(*self, cfg, i as int);
            }
            children.push(RandomSubstream { seed: self.seed, start, len: cfg.words_per_child });
            start = start + cfg.words_per_child;
            i = i + 1;
            assert(start == self.position + i * cfg.words_per_child) by (nonlinear_arith)
                requires
                    start == self.position + (i - 1) * cfg.words_per_child + cfg.words_per_child,
            ;
        }
        self.position = self.position + total;
        Ok(children)
    }

    /// The fork of `try_fork_from_config`, in a form meant for independent
    /// workers: each child is computed from its index alone, with no running
    /// state shared between children.
    pub fn par_try_fork_from_config(&mut self, cfg: ForkConfig) -> (r: Result<
        Vec<RandomSubstream>,
        ForkError,
    >)
        ensures
            fork_outcome(*old(self), cfg, *final(self), r),
    {
        let total = match self.fork_total(cfg) {
            Some(t) => t,
            None => return Err(ForkError::InsufficientEntropyConfiguration),
        };
        let mut children: Vec<RandomSubstream> = Vec::new();
        let mut i: usize = 0;
        while i < cfg.children
            invariant
                fork_fits(*self, cfg),
                i <= cfg.children,
                children@.len() == i,
                forall|j: int| 0 <= j < i ==> #[trigger] children@[j] == forked_substream(*self, cfg, j),
            decreases cfg.children - i,
        {
            children.push(self.substream_at(cfg, i));
            i = i + 1;
        }
        self.position = self.position + total;
        Ok(children)
    }

    /// The `i`-th child of a fork of this stream with `cfg`.
    pub fn substream_at(&self, cfg: ForkConfig, i: usize) -> (r: RandomSubstream)
        requires
            fork_fits(*self, cfg),
            i < cfg.children,
        ensures
            r == forked_substream(*self, cfg, i as int),
    {
        proof {
            lemma_child_window(*self, cfg, i as int);
        }
        let offset = (i as u64) * cfg.words_per_child;
        RandomSubstream { seed: self.seed, start: self.position + offset, len: cfg.words_per_child }
    }
}

} // verus!
