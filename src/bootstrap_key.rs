//! LWE bootstrapping keys and their generation.
//!
//! A bootstrapping key holds one GGSW ciphertext ("row") per coefficient of
//! the input LWE secret key, each encrypting that coefficient under the output
//! GLWE secret key. The single-row encryption is supplied by the caller as a
//! closure (the encryptor); the generators own the checks, the randomness
//! management and the placement of the rows.
use vstd::prelude::*;
use rayon::iter::{
    IndexedParallelIterator, IntoParallelIterator, IntoParallelRefIterator, ParallelIterator,
};
use crate::random::{
    advanced, fork_fits, forked_substream, EncryptionRandomGenerator, ForkConfig, ForkError,
    RandomSubstream,
};

verus! {

/// An LWE secret key: its coefficients, each a bit.
#[derive(Clone, Debug)]
pub struct LweSecretKey {
    pub data: Vec<u64>,
}

/// A GLWE secret key: `glwe_dimension` polynomials of `polynomial_size`
/// coefficients each, stored one after the other.
#[derive(Clone, Debug)]
pub struct GlweSecretKey {
    pub data: Vec<u64>,
    pub glwe_dimension: usize,
    pub polynomial_size: usize,
}

/// The modulus of the ciphertext ring; `0` stands for the native modulus 2^64.
#[derive(Clone, Copy, Debug, PartialEq, Eq)]
pub struct CiphertextModulus {
    pub value: u128,
}

/// The shape of one GGSW row of a bootstrapping key.
#[derive(Clone, Copy, Debug, PartialEq, Eq)]
pub struct GgswParams {
    pub glwe_size: usize,
    pub polynomial_size: usize,
    pub decomp_base_log: usize,
    pub decomp_level_count: usize,
    pub ciphertext_modulus: CiphertextModulus,
}

/// An LWE bootstrapping key: `input_lwe_dimension` GGSW rows of one shape.
#[derive(Clone, Debug)]
pub struct LweBootstrapKey {
    pub rows: Vec<Vec<u64>>,
    pub params: GgswParams,
    pub input_lwe_dimension: usize,
}

/// A bootstrapping key stored compactly: its shape, the seed that its
/// random stream is re-derived from, and the rows that the encryptor produced
/// from that stream.
#[derive(Clone, Debug)]
pub struct SeededLweBootstrapKey {
    pub rows: Vec<Vec<u64>>,
    pub params: GgswParams,
    pub input_lwe_dimension: usize,
    pub compression_seed: u128,
}

/// Why a generation call refused to run.
#[derive(Clone, Copy, Debug, PartialEq, Eq)]
pub enum BootstrapKeyError {
    /// The key's input dimension differs from the input LWE secret key's.
    LweDimensionMismatch,
    /// The key's GLWE size differs from the output GLWE secret key's.
    GlweSizeMismatch,
    /// The key's polynomial size differs from the output GLWE secret key's.
    PolynomialSizeMismatch,
    /// The random stream cannot serve one substream per row.
    InsufficientEntropyConfiguration,
}

/// The number of scalars in one GGSW row.
pub open spec fn ggsw_len(p: GgswParams) -> int {
    p.glwe_size * p.glwe_size * p.decomp_level_count * p.polynomial_size
}

/// The fork that gives one substream per row, each sized for one GGSW
/// encryption: every mask coefficient and every noise sample takes one word,
/// which is one word per scalar of the row.
pub open spec fn row_fork_config(p: GgswParams, rows: usize) -> ForkConfig {
    ForkConfig { children: rows, words_per_child: ggsw_len(p) as u64 }
}

/// The first disagreement between a key's declared shape and the secret keys,
/// in the order in which the generators check them.
pub open spec fn shape_error(
    input_dim: int,
    glwe_dimension: int,
    polynomial_size: int,
    p: GgswParams,
    key_input_dim: int,
) -> Option<BootstrapKeyError> {
    if key_input_dim != input_dim {
        Some(BootstrapKeyError::LweDimensionMismatch)
    } else if p.glwe_size != glwe_dimension + 1 {
        Some(BootstrapKeyError::GlweSizeMismatch)
    } else if p.polynomial_size != polynomial_size {
        Some(BootstrapKeyError::PolynomialSizeMismatch)
    } else {
        None
    }
}

/// Whether the rows can be given one substream each by `g`.
pub open spec fn rows_fit(g: EncryptionRandomGenerator, p: GgswParams, rows: usize) -> bool {
    ggsw_len(p) <= u64::MAX && fork_fits(g, row_fork_config(p, rows))
}

/// What an encryptor must be for the generators: callable on every input,
/// and producing a row of the shape it is asked for.
pub open spec fn is_row_encryptor<D, F: Fn(&GlweSecretKey, u64, GgswParams, D, RandomSubstream) -> Vec<u64>>(f: F) -> bool {
    &&& forall|k: &GlweSecretKey, b: u64, p: GgswParams, d: D, s: RandomSubstream|
        #[trigger] f.requires((k, b, p, d, s))
    &&& forall|k: &GlweSecretKey, b: u64, p: GgswParams, d: D, s: RandomSubstream, r: Vec<u64>|
        #[trigger] f.ensures((k, b, p, d, s), r) ==> r@.len() == ggsw_len(p)
}

/// Rows `rows`, produced by `f` from the bits of `bits` under `glwe_key`, row
/// `i` from substream `i` of a fork of `g`.
pub open spec fn rows_encrypt<D, F: Fn(&GlweSecretKey, u64, GgswParams, D, RandomSubstream) -> Vec<u64>>(
    rows: Seq<Vec<u64>>,
    bits: Seq<u64>,
    glwe_key: &GlweSecretKey,
    p: GgswParams,
    noise: D,
    g: EncryptionRandomGenerator,
    f: F,
) -> bool {
    &&& rows.len() == bits.len()
    &&& forall|i: int| 0 <= i < rows.len() ==> f.ensures(
        (glwe_key, bits[i], p, noise, forked_substream(g, row_fork_config(p, bits.len() as usize), i)),
        #[trigger] rows[i],
    )
}

/// What a generation call does to the key: the result `r` and the key `out1`
/// after generating into `out0` from the stream `g0`.
pub open spec fn key_outcome<D, F: Fn(&GlweSecretKey, u64, GgswParams, D, RandomSubstream) -> Vec<u64>>(
    input_key: &LweSecretKey,
    glwe_key: &GlweSecretKey,
    out0: LweBootstrapKey,
    noise: D,
    g0: EncryptionRandomGenerator,
    f: F,
    out1: LweBootstrapKey,
    r: Result<(), BootstrapKeyError>,
) -> bool {
    let err = shape_error(
        input_key.data@.len() as int,
        glwe_key.glwe_dimension as int,
        glwe_key.polynomial_size as int,
        out0.params,
        out0.input_lwe_dimension as int,
    );
    if err is Some {
        r == Err::<(), BootstrapKeyError>(err->Some_0) && out1 == out0
    } else if !rows_fit(g0, out0.params, out0.input_lwe_dimension) {
        &&& r == Err::<(), BootstrapKeyError>(BootstrapKeyError::InsufficientEntropyConfiguration)
        &&& out1 == out0
    } else {
        &&& r == Ok::<(), BootstrapKeyError>(())
        &&& out1.params == out0.params
        &&& out1.input_lwe_dimension == out0.input_lwe_dimension
        &&& rows_encrypt(out1.rows@, input_key.data@, glwe_key, out0.params, noise, g0, f)
        &&& forall|i: int| 0 <= i < out1.rows@.len() ==> #[trigger] out1.rows@[i]@.len() == ggsw_len(out0.params)
    }
}

/// The whole effect of generating into `out0` with the stream `g0`: the
/// result `r`, the key `out1` and the stream `g1` afterwards. The stream
/// moves past the substreams of the rows when, and only when, the key is
/// filled.
pub open spec fn generation_outcome<D, F: Fn(&GlweSecretKey, u64, GgswParams, D, RandomSubstream) -> Vec<u64>>(
    input_key: &LweSecretKey,
    glwe_key: &GlweSecretKey,
    out0: LweBootstrapKey,
    noise: D,
    g0: EncryptionRandomGenerator,
    f: F,
    out1: LweBootstrapKey,
    g1: EncryptionRandomGenerator,
    r: Result<(), BootstrapKeyError>,
) -> bool {
    &&& key_outcome(input_key, glwe_key, out0, noise, g0, f, out1, r)
    &&& if r is Ok {
        g1 == advanced(g0, row_fork_config(out0.params, out0.input_lwe_dimension))
    } else {
        g1 == g0
    }
}

/// Checks the key's declared shape against the secret keys.
fn check_shape(
    input_key: &LweSecretKey,
    glwe_key: &GlweSecretKey,
    params: GgswParams,
    key_input_dim: usize,
) -> (r: Result<(), BootstrapKeyError>)
    ensures
        match shape_error(
            input_key.data@.len() as int,
            glwe_key.glwe_dimension as int,
            glwe_key.polynomial_size as int,
            params,
            key_input_dim as int,
        ) {
            Some(e) => r == Err::<(), BootstrapKeyError>(e),
            None => r is Ok,
        },
{
    if key_input_dim != input_key.data.len() {
        Err(BootstrapKeyError::LweDimensionMismatch)
    } else if params.glwe_size == 0 || params.glwe_size - 1 != glwe_key.glwe_dimension {
        Err(BootstrapKeyError::GlweSizeMismatch)
    } else if params.polynomial_size != glwe_key.polynomial_size {
        Err(BootstrapKeyError::PolynomialSizeMismatch)
    } else {
        Ok(())
    }
}

/// The number of scalars in one GGSW row, if it fits in a word.
fn ggsw_words(p: GgswParams) -> (r: Option<u64>)
    ensures
        r is Some <==> ggsw_len(p) <= u64::MAX,
        r is Some ==> r->Some_0 == ggsw_len(p),
{
    let a = p.glwe_size as u64;
    let levels = p.decomp_level_count as u64;
    let n = p.polynomial_size as u64;
    if a == 0 || levels == 0 || n == 0 {
        assert(ggsw_len(p) == 0) by (nonlinear_arith)
            requires p.glwe_size == 0 || p.decomp_level_count == 0 || p.polynomial_size == 0;
        return Some(0);
    }
    let r = match a.checked_mul(a) {
        Some(x) => match x.checked_mul(levels) {
            Some(y) => y.checked_mul(n),
            None => None,
        },
        None => None,
    };
    proof {
        let (ai, li, ni) = (a as int, levels as int, n as int);
        assert(ai * ai <= ai * ai * li) by (nonlinear_arith)
            requires ai >= 1, li >= 1;
        assert(ai * ai * li <= ai * ai * li * ni) by (nonlinear_arith)
            requires ai >= 1, li >= 1, ni >= 1;
        assert(ggsw_len(p) == ai * ai * li * ni);
    }
    r
}

/// Encrypts bit `i` of `bits` from substream `i` of `streams`, in order.
fn encrypt_rows<D: Copy, F: Fn(&GlweSecretKey, u64, GgswParams, D, RandomSubstream) -> Vec<u64>>(
    bits: &Vec<u64>,
    glwe_key: &GlweSecretKey,
    params: GgswParams,
    noise: D,
    streams: Vec<RandomSubstream>,
    encrypt: &F,
) -> (rows: Vec<Vec<u64>>)
    requires
        is_row_encryptor::<D, F>(*encrypt),
        streams@.len() == bits@.len(),
    ensures
        rows@.len() == bits@.len(),
        forall|i: int| 0 <= i < rows@.len() ==> encrypt.ensures(
            (glwe_key, bits@[i], params, noise, streams@[i]),
            #[trigger] rows@[i],
        ),
{
    let mut rows: Vec<Vec<u64>> = Vec::new();
    let mut i: usize = 0;
    while i < bits.len()
        invariant
            is_row_encryptor::<D, F>(*encrypt),
            streams@.len() == bits@.len(),
            i <= bits@.len(),
            rows@.len() == i,
            forall|j: int| 0 <= j < i ==> encrypt.ensures(
                (glwe_key, bits@[j], params, noise, streams@[j]),
                #[trigger] rows@[j],
            ),
        decreases bits@.len() - i,
    {
        let row = encrypt(glwe_key, bits[i], params, noise, streams[i]);
        rows.push(row);
        i = i + 1;
    }
    rows
}

/// Fills `output` with a bootstrapping key that encrypts, row by row, the
/// coefficients of `input_lwe_secret_key` under `output_glwe_secret_key`.
///
/// The declared shape of `output` is checked first; on a mismatch nothing is
/// drawn from `generator` and `output` is left as it was. Otherwise the
/// generator is forked into one substream per row, and row `i` is
/// `encrypt(output_glwe_secret_key, bit i, shape, noise_distribution,
/// substream i)`.
pub fn generate_lwe_bootstrap_key<D: Copy, F: Fn(&GlweSecretKey, u64, GgswParams, D, RandomSubstream) -> Vec<u64>>(
    input_lwe_secret_key: &LweSecretKey,
    output_glwe_secret_key: &GlweSecretKey,
    output: &mut LweBootstrapKey,
    noise_distribution: D,
    generator: &mut EncryptionRandomGenerator,
    encrypt: &F,
) -> (r: Result<(), BootstrapKeyError>)
    requires
        is_row_encryptor::<D, F>(*encrypt),
    ensures
        generation_outcome(
            input_lwe_secret_key,
            output_glwe_secret_key,
            *old(output),
            noise_distribution,
            *old(generator),
            *encrypt,
            *final(output),
            *final(generator),
            r,
        ),
{
    let streams = match prepare_streams(
        input_lwe_secret_key,
        output_glwe_secret_key,
        output.params,
        output.input_lwe_dimension,
        generator,
        false,
    ) {
        Ok(s) => s,
        Err(e) => return Err(e),
    };
    let rows = encrypt_rows(
        &input_lwe_secret_key.data,
        output_glwe_secret_key,
        output.params,
        noise_distribution,
        streams,
        encrypt,
    );
    output.rows = rows;
    Ok(())
}

/// The checks and the fork that every generator starts with: the substreams
/// of the rows, or the reason not to go on (with nothing drawn).
fn prepare_streams(
    input_key: &LweSecretKey,
    glwe_key: &GlweSecretKey,
    params: GgswParams,
    key_input_dim: usize,
    generator: &mut EncryptionRandomGenerator,
    parallel: bool,
) -> (r: Result<Vec<RandomSubstream>, BootstrapKeyError>)
    ensures
        ({
            let err = shape_error(
                input_key.data@.len() as int,
                glwe_key.glwe_dimension as int,
                glwe_key.polynomial_size as int,
                params,
                key_input_dim as int,
            );
            let cfg = row_fork_config(params, key_input_dim);
            if err is Some {
                r == Err::<Vec<RandomSubstream>, BootstrapKeyError>(err->Some_0)
                    && *final(generator) == *old(generator)
            } else if !rows_fit(*old(generator), params, key_input_dim) {
                &&& r == Err::<Vec<RandomSubstream>, BootstrapKeyError>(
                    BootstrapKeyError::InsufficientEntropyConfiguration,
                )
                &&& *final(generator) == *old(generator)
            } else {
                &&& r is Ok
                &&& r->Ok_0@.len() == input_key.data@.len()
                &&& forall|i: int| 0 <= i < r->Ok_0@.len() ==> #[trigger] r->Ok_0@[i] == forked_substream(*old(generator), cfg, i)
                &&& *final(generator) == advanced(*old(generator), cfg)
            }
        }),
{
    match check_shape(input_key, glwe_key, params, key_input_dim) {
        Ok(()) => {},
        Err(e) => return Err(e),
    }
    let words = match ggsw_words(params) {
        Some(w) => w,
        None => return Err(BootstrapKeyError::InsufficientEntropyConfiguration),
    };
    let cfg = ForkConfig { children: key_input_dim, words_per_child: words };
    let forked = if parallel {
        generator.par_try_fork_from_config(cfg)
    } else {
        generator.try_fork_from_config(cfg)
    };
    match forked {
        Ok(streams) => Ok(streams),
        Err(ForkError::InsufficientEntropyConfiguration) => Err(
            BootstrapKeyError::InsufficientEntropyConfiguration,
        ),
    }
}

/// Relies on rayon's `IndexedParallelIterator::collect_into_vec`: an indexed
/// parallel map (`par_iter`, `zip`, `map`) leaves the result for input `i` at
/// index `i` of the vector, whichever worker computed it and when.
#[verifier::external_body]
fn par_encrypt_rows<
    D: Copy + Send + Sync,
    F: Fn(&GlweSecretKey, u64, GgswParams, D, RandomSubstream) -> Vec<u64> + Sync,
>(
    bits: &Vec<u64>,
    glwe_key: &GlweSecretKey,
    params: GgswParams,
    noise: D,
    streams: Vec<RandomSubstream>,
    encrypt: &F,
) -> (rows: Vec<Vec<u64>>)
    requires
        is_row_encryptor::<D, F>(*encrypt),
        streams@.len() == bits@.len(),
    ensures
        rows@.len() == bits@.len(),
        forall|i: int| 0 <= i < rows@.len() ==> encrypt.ensures(
            (glwe_key, bits@[i], params, noise, streams@[i]),
            #[trigger] rows@[i],
        ),
{
    let mut rows = Vec::new();
    bits.par_iter()
        .zip(streams.into_par_iter())
        .map(|(&bit, stream)| encrypt(glwe_key, bit, params, noise, stream))
        .collect_into_vec(&mut rows);
    rows
}

/// Parallel form of `generate_lwe_bootstrap_key`, with the same contract: the
/// substreams are forked up front, one per row, and the rows are encrypted by
/// independent workers, each written at its own index.
pub fn par_generate_lwe_bootstrap_key<
    D: Copy + Send + Sync,
    F: Fn(&GlweSecretKey, u64, GgswParams, D, RandomSubstream) -> Vec<u64> + Sync,
>(
    input_lwe_secret_key: &LweSecretKey,
    output_glwe_secret_key: &GlweSecretKey,
    output: &mut LweBootstrapKey,
    noise_distribution: D,
    generator: &mut EncryptionRandomGenerator,
    encrypt: &F,
) -> (r: Result<(), BootstrapKeyError>)
    requires
        is_row_encryptor::<D, F>(*encrypt),
    ensures
        generation_outcome(
            input_lwe_secret_key,
            output_glwe_secret_key,
            *old(output),
            noise_distribution,
            *old(generator),
            *encrypt,
            *final(output),
            *final(generator),
            r,
        ),
{
    let streams = match prepare_streams(
        input_lwe_secret_key,
        output_glwe_secret_key,
        output.params,
        output.input_lwe_dimension,
        generator,
        true,
    ) {
        Ok(s) => s,
        Err(e) => return Err(e),
    };
    let rows = par_encrypt_rows(
        &input_lwe_secret_key.data,
        output_glwe_secret_key,
        output.params,
        noise_distribution,
        streams,
        encrypt,
    );
    output.rows = rows;
    Ok(())
}

/// The plain key that a seeded key stands for.
pub open spec fn expanded(k: SeededLweBootstrapKey) -> LweBootstrapKey {
    LweBootstrapKey { rows: k.rows, params: k.params, input_lwe_dimension: k.input_lwe_dimension }
}

/// The stream that a seeded key's rows are drawn from.
pub open spec fn reseeded(seed: u128) -> EncryptionRandomGenerator {
    EncryptionRandomGenerator { seed, position: 0 }
}

/// What a seeded generation call does: it generates as the plain generators
/// do, from a fresh stream seeded with the key's `compression_seed`, and keeps
/// that seed.
pub open spec fn seeded_outcome<D, F: Fn(&GlweSecretKey, u64, GgswParams, D, RandomSubstream) -> Vec<u64>>(
    input_key: &LweSecretKey,
    glwe_key: &GlweSecretKey,
    out0: SeededLweBootstrapKey,
    noise: D,
    f: F,
    out1: SeededLweBootstrapKey,
    r: Result<(), BootstrapKeyError>,
) -> bool {
    &&& key_outcome(
        input_key,
        glwe_key,
        expanded(out0),
        noise,
        reseeded(out0.compression_seed),
        f,
        expanded(out1),
        r,
    )
    &&& out1.compression_seed == out0.compression_seed
}

/// An encryptor whose row depends on its arguments alone.
pub open spec fn is_deterministic<D, F: Fn(&GlweSecretKey, u64, GgswParams, D, RandomSubstream) -> Vec<u64>>(f: F) -> bool {
    forall|a: (&GlweSecretKey, u64, GgswParams, D, RandomSubstream), r1: Vec<u64>, r2: Vec<u64>|
        #![trigger f.ensures(a, r1), f.ensures(a, r2)]
        f.ensures(a, r1) && f.ensures(a, r2) ==> r1@ == r2@
}

/// Two lists of rows with the same scalars.
pub open spec fn same_rows(a: Seq<Vec<u64>>, b: Seq<Vec<u64>>) -> bool {
    &&& a.len() == b.len()
    &&& forall|i: int| 0 <= i < a.len() ==> #[trigger] a[i]@ == b[i]@
}

/// The shape of the rows that the allocating generators give a key made for
/// `glwe_key`.
pub open spec fn allocation_params(
    glwe_key: &GlweSecretKey,
    decomp_base_log: usize,
    decomp_level_count: usize,
    ciphertext_modulus: CiphertextModulus,
) -> GgswParams {
    GgswParams {
        glwe_size: (glwe_key.glwe_dimension + 1) as usize,
        polynomial_size: glwe_key.polynomial_size,
        decomp_base_log,
        decomp_level_count,
        ciphertext_modulus,
    }
}

/// `k` is the key of shape `p` that the generators fill from `g0`.
pub open spec fn allocated_key<D, F: Fn(&GlweSecretKey, u64, GgswParams, D, RandomSubstream) -> Vec<u64>>(
    input_key: &LweSecretKey,
    glwe_key: &GlweSecretKey,
    p: GgswParams,
    noise: D,
    g0: EncryptionRandomGenerator,
    f: F,
    k: LweBootstrapKey,
) -> bool {
    &&& k.params == p
    &&& k.input_lwe_dimension == input_key.data@.len()
    &&& rows_encrypt(k.rows@, input_key.data@, glwe_key, p, noise, g0, f)
    &&& forall|i: int| 0 <= i < k.rows@.len() ==> #[trigger] k.rows@[i]@.len() == ggsw_len(p)
}

/// Generating twice from the same inputs with a deterministic encryptor
/// gives the same result, the same key and the same stream afterwards. The
/// sequential and the parallel generators share one contract, so they agree
/// with each other on every input.
pub proof fn lemma_generation_agrees<D, F: Fn(&GlweSecretKey, u64, GgswParams, D, RandomSubstream) -> Vec<u64>>(
    input_key: &LweSecretKey,
    glwe_key: &GlweSecretKey,
    out0: LweBootstrapKey,
    noise: D,
    g0: EncryptionRandomGenerator,
    f: F,
    out1: LweBootstrapKey,
    g1: EncryptionRandomGenerator,
    r1: Result<(), BootstrapKeyError>,
    out2: LweBootstrapKey,
    g2: EncryptionRandomGenerator,
    r2: Result<(), BootstrapKeyError>,
)
    requires
        is_deterministic::<D, F>(f),
        generation_outcome(input_key, glwe_key, out0, noise, g0, f, out1, g1, r1),
        generation_outcome(input_key, glwe_key, out0, noise, g0, f, out2, g2, r2),
    ensures
        r1 == r2,
        g1 == g2,
        out1.params == out2.params,
        out1.input_lwe_dimension == out2.input_lwe_dimension,
        same_rows(out1.rows@, out2.rows@),
{
    if r1 is Ok {
        let cfg = row_fork_config(out0.params, input_key.data@.len() as usize);
        assert forall|i: int| 0 <= i < out1.rows@.len() implies out1.rows@[i]@ == out2.rows@[i]@ by {
            let a = (glwe_key, input_key.data@[i], out0.params, noise, forked_substream(g0, cfg, i));
            assert(f.ensures(a, out1.rows@[i]));
            assert(f.ensures(a, out2.rows@[i]));
        }
    }
}

/// Decryption is positional: if every row that the encryptor produces
/// decrypts, under the key it was given, to the bit it was given, then row `i`
/// of a filled key decrypts under the output GLWE key to coefficient `i` of
/// the input LWE key, for every `i`.
pub proof fn lemma_rows_decrypt_to_key_bits<D, F: Fn(&GlweSecretKey, u64, GgswParams, D, RandomSubstream) -> Vec<u64>>(
    input_key: &LweSecretKey,
    glwe_key: &GlweSecretKey,
    out0: LweBootstrapKey,
    noise: D,
    g0: EncryptionRandomGenerator,
    f: F,
    out1: LweBootstrapKey,
    r: Result<(), BootstrapKeyError>,
    decrypt: spec_fn(&GlweSecretKey, Seq<u64>) -> u64,
)
    requires
        forall|a: (&GlweSecretKey, u64, GgswParams, D, RandomSubstream), row: Vec<u64>|
            #[trigger] f.ensures(a, row) ==> decrypt(a.0, row@) == a.1,
        key_outcome(input_key, glwe_key, out0, noise, g0, f, out1, r),
        r is Ok,
    ensures
        out1.rows@.len() == input_key.data@.len(),
        forall|i: int| 0 <= i < out1.rows@.len() ==> decrypt(glwe_key, #[trigger] out1.rows@[i]@) == input_key.data@[i],
{
    let cfg = row_fork_config(out0.params, input_key.data@.len() as usize);
    assert forall|i: int| 0 <= i < out1.rows@.len() implies decrypt(glwe_key, #[trigger] out1.rows@[i]@) == input_key.data@[i] by {
        let a = (glwe_key, input_key.data@[i], out0.params, noise, forked_substream(g0, cfg, i));
        assert(f.ensures(a, out1.rows@[i]));
    }
}

/// A seeded key, expanded, is the plain key that the same generation gives
/// from a stream freshly seeded with the key's compression seed: the same
/// result and the same rows, row for row.
pub proof fn lemma_seeded_key_rederivable<D, F: Fn(&GlweSecretKey, u64, GgswParams, D, RandomSubstream) -> Vec<u64>>(
    input_key: &LweSecretKey,
    glwe_key: &GlweSecretKey,
    seeded0: SeededLweBootstrapKey,
    noise: D,
    f: F,
    seeded1: SeededLweBootstrapKey,
    rs: Result<(), BootstrapKeyError>,
    plain0: LweBootstrapKey,
    plain1: LweBootstrapKey,
    g1: EncryptionRandomGenerator,
    rp: Result<(), BootstrapKeyError>,
)
    requires
        is_deterministic::<D, F>(f),
        seeded_outcome(input_key, glwe_key, seeded0, noise, f, seeded1, rs),
        plain0.params == seeded0.params,
        plain0.input_lwe_dimension == seeded0.input_lwe_dimension,
        generation_outcome(
            input_key,
            glwe_key,
            plain0,
            noise,
            reseeded(seeded0.compression_seed),
            f,
            plain1,
            g1,
            rp,
        ),
    ensures
        rs == rp,
        rs is Ok ==> expanded(seeded1).params == plain1.params
            && expanded(seeded1).input_lwe_dimension == plain1.input_lwe_dimension
            && same_rows(expanded(seeded1).rows@, plain1.rows@),
{
    if rs is Ok {
        let g0 = reseeded(seeded0.compression_seed);
        let cfg = row_fork_config(seeded0.params, input_key.data@.len() as usize);
        let k = expanded(seeded1);
        assert forall|i: int| 0 <= i < k.rows@.len() implies k.rows@[i]@ == plain1.rows@[i]@ by {
            let a = (glwe_key, input_key.data@[i], seeded0.params, noise, forked_substream(g0, cfg, i));
            assert(f.ensures(a, k.rows@[i]));
            assert(f.ensures(a, plain1.rows@[i]));
        }
    }
}

/// Fills `output` as `generate_lwe_bootstrap_key` does, from a stream freshly
/// seeded with `output`'s compression seed, which it keeps; expanding the key
/// gives the plain key back.
pub fn generate_seeded_lwe_bootstrap_key<D: Copy, F: Fn(&GlweSecretKey, u64, GgswParams, D, RandomSubstream) -> Vec<u64>>(
    input_lwe_secret_key: &LweSecretKey,
    output_glwe_secret_key: &GlweSecretKey,
    output: &mut SeededLweBootstrapKey,
    noise_distribution: D,
    encrypt: &F,
) -> (r: Result<(), BootstrapKeyError>)
    requires
        is_row_encryptor::<D, F>(*encrypt),
    ensures
        seeded_outcome(
            input_lwe_secret_key,
            output_glwe_secret_key,
            *old(output),
            noise_distribution,
            *encrypt,
            *final(output),
            r,
        ),
{
    let mut generator = EncryptionRandomGenerator::new(output.compression_seed);
    let streams = match prepare_streams(
        input_lwe_secret_key,
        output_glwe_secret_key,
        output.params,
        output.input_lwe_dimension,
        &mut generator,
        false,
    ) {
        Ok(s) => s,
        Err(e) => return Err(e),
    };
    let rows = encrypt_rows(
        &input_lwe_secret_key.data,
        output_glwe_secret_key,
        output.params,
        noise_distribution,
        streams,
        encrypt,
    );
    output.rows = rows;
    Ok(())
}

/// Parallel form of `generate_seeded_lwe_bootstrap_key`, with the same
/// contract.
pub fn par_generate_seeded_lwe_bootstrap_key<
    D: Copy + Send + Sync,
    F: Fn(&GlweSecretKey, u64, GgswParams, D, RandomSubstream) -> Vec<u64> + Sync,
>(
    input_lwe_secret_key: &LweSecretKey,
    output_glwe_secret_key: &GlweSecretKey,
    output: &mut SeededLweBootstrapKey,
    noise_distribution: D,
    encrypt: &F,
) -> (r: Result<(), BootstrapKeyError>)
    requires
        is_row_encryptor::<D, F>(*encrypt),
    ensures
        seeded_outcome(
            input_lwe_secret_key,
            output_glwe_secret_key,
            *old(output),
            noise_distribution,
            *encrypt,
            *final(output),
            r,
        ),
{
    let mut generator = EncryptionRandomGenerator::new(output.compression_seed);
    let streams = match prepare_streams(
        input_lwe_secret_key,
        output_glwe_secret_key,
        output.params,
        output.input_lwe_dimension,
        &mut generator,
        true,
    ) {
        Ok(s) => s,
        Err(e) => return Err(e),
    };
    let rows = par_encrypt_rows(
        &input_lwe_secret_key.data,
        output_glwe_secret_key,
        output.params,
        noise_distribution,
        streams,
        encrypt,
    );
    output.rows = rows;
    Ok(())
}

/// Allocates a zero key shaped for the two secret keys and fills it with
/// `generate_lwe_bootstrap_key`. Fails only when the stream cannot serve one
/// substream per row.
pub fn allocate_and_generate_new_lwe_bootstrap_key<D: Copy, F: Fn(&GlweSecretKey, u64, GgswParams, D, RandomSubstream) -> Vec<u64>>(
    input_lwe_secret_key: &LweSecretKey,
    output_glwe_secret_key: &GlweSecretKey,
    decomp_base_log: usize,
    decomp_level_count: usize,
    noise_distribution: D,
    ciphertext_modulus: CiphertextModulus,
    generator: &mut EncryptionRandomGenerator,
    encrypt: &F,
) -> (r: Result<LweBootstrapKey, BootstrapKeyError>)
    requires
        is_row_encryptor::<D, F>(*encrypt),
        output_glwe_secret_key.glwe_dimension < usize::MAX,
        ggsw_len(allocation_params(output_glwe_secret_key, decomp_base_log, decomp_level_count, ciphertext_modulus)) <= usize::MAX,
    ensures
        ({
            let p = allocation_params(output_glwe_secret_key, decomp_base_log, decomp_level_count, ciphertext_modulus);
            let n = input_lwe_secret_key.data@.len() as usize;
            &&& (r is Ok <==> rows_fit(*old(generator), p, n))
            &&& r is Ok ==> allocated_key(input_lwe_secret_key, output_glwe_secret_key, p, noise_distribution, *old(generator), *encrypt, r->Ok_0)
                && *final(generator) == advanced(*old(generator), row_fork_config(p, n))
            &&& r is Err ==> r == Err::<LweBootstrapKey, BootstrapKeyError>(BootstrapKeyError::InsufficientEntropyConfiguration)
                && *final(generator) == *old(generator)
        }),
{
    let mut bsk = LweBootstrapKey::new(
        0,
        output_glwe_secret_key.glwe_size(),
        output_glwe_secret_key.polynomial_size,
        decomp_base_log,
        decomp_level_count,
        input_lwe_secret_key.lwe_dimension(),
        ciphertext_modulus,
    );
    match generate_lwe_bootstrap_key(
        input_lwe_secret_key,
        output_glwe_secret_key,
        &mut bsk,
        noise_distribution,
        generator,
        encrypt,
    ) {
        Ok(()) => Ok(bsk),
        Err(e) => Err(e),
    }
}

/// Parallel form of `allocate_and_generate_new_lwe_bootstrap_key`, with the
/// same contract.
pub fn par_allocate_and_generate_new_lwe_bootstrap_key<
    D: Copy + Send + Sync,
    F: Fn(&GlweSecretKey, u64, GgswParams, D, RandomSubstream) -> Vec<u64> + Sync,
>(
    input_lwe_secret_key: &LweSecretKey,
    output_glwe_secret_key: &GlweSecretKey,
    decomp_base_log: usize,
    decomp_level_count: usize,
    noise_distribution: D,
    ciphertext_modulus: CiphertextModulus,
    generator: &mut EncryptionRandomGenerator,
    encrypt: &F,
) -> (r: Result<LweBootstrapKey, BootstrapKeyError>)
    requires
        is_row_encryptor::<D, F>(*encrypt),
        output_glwe_secret_key.glwe_dimension < usize::MAX,
        ggsw_len(allocation_params(output_glwe_secret_key, decomp_base_log, decomp_level_count, ciphertext_modulus)) <= usize::MAX,
    ensures
        ({
            let p = allocation_params(output_glwe_secret_key, decomp_base_log, decomp_level_count, ciphertext_modulus);
            let n = input_lwe_secret_key.data@.len() as usize;
            &&& (r is Ok <==> rows_fit(*old(generator), p, n))
            &&& r is Ok ==> allocated_key(input_lwe_secret_key, output_glwe_secret_key, p, noise_distribution, *old(generator), *encrypt, r->Ok_0)
                && *final(generator) == advanced(*old(generator), row_fork_config(p, n))
            &&& r is Err ==> r == Err::<LweBootstrapKey, BootstrapKeyError>(BootstrapKeyError::InsufficientEntropyConfiguration)
                && *final(generator) == *old(generator)
        }),
{
    let mut bsk = LweBootstrapKey::new(
        0,
        output_glwe_secret_key.glwe_size(),
        output_glwe_secret_key.polynomial_size,
        decomp_base_log,
        decomp_level_count,
        input_lwe_secret_key.lwe_dimension(),
        ciphertext_modulus,
    );
    match par_generate_lwe_bootstrap_key(
        input_lwe_secret_key,
        output_glwe_secret_key,
        &mut bsk,
        noise_distribution,
        generator,
        encrypt,
    ) {
        Ok(()) => Ok(bsk),
        Err(e) => Err(e),
    }
}

/// Allocates a zero seeded key shaped for the two secret keys, to be
/// generated from `compression_seed` (a seed drawn by the caller from its
/// entropy source), and fills it with `generate_seeded_lwe_bootstrap_key`.
pub fn allocate_and_generate_new_seeded_lwe_bootstrap_key<D: Copy, F: Fn(&GlweSecretKey, u64, GgswParams, D, RandomSubstream) -> Vec<u64>>(
    input_lwe_secret_key: &LweSecretKey,
    output_glwe_secret_key: &GlweSecretKey,
    decomp_base_log: usize,
    decomp_level_count: usize,
    noise_distribution: D,
    ciphertext_modulus: CiphertextModulus,
    compression_seed: u128,
    encrypt: &F,
) -> (r: Result<SeededLweBootstrapKey, BootstrapKeyError>)
    requires
        is_row_encryptor::<D, F>(*encrypt),
        output_glwe_secret_key.glwe_dimension < usize::MAX,
        ggsw_len(allocation_params(output_glwe_secret_key, decomp_base_log, decomp_level_count, ciphertext_modulus)) <= usize::MAX,
    ensures
        ({
            let p = allocation_params(output_glwe_secret_key, decomp_base_log, decomp_level_count, ciphertext_modulus);
            let n = input_lwe_secret_key.data@.len() as usize;
            &&& (r is Ok <==> rows_fit(reseeded(compression_seed), p, n))
            &&& r is Ok ==> r->Ok_0.compression_seed == compression_seed
                && allocated_key(input_lwe_secret_key, output_glwe_secret_key, p, noise_distribution, reseeded(compression_seed), *encrypt, expanded(r->Ok_0))
            &&& r is Err ==> r == Err::<SeededLweBootstrapKey, BootstrapKeyError>(BootstrapKeyError::InsufficientEntropyConfiguration)
        }),
{
    let mut bsk = SeededLweBootstrapKey::new(
        0,
        output_glwe_secret_key.glwe_size(),
        output_glwe_secret_key.polynomial_size,
        decomp_base_log,
        decomp_level_count,
        input_lwe_secret_key.lwe_dimension(),
        compression_seed,
        ciphertext_modulus,
    );
    match generate_seeded_lwe_bootstrap_key(
        input_lwe_secret_key,
        output_glwe_secret_key,
        &mut bsk,
        noise_distribution,
        encrypt,
    ) {
        Ok(()) => Ok(bsk),
        Err(e) => Err(e),
    }
}

/// Parallel form of `allocate_and_generate_new_seeded_lwe_bootstrap_key`,
/// with the same contract.
pub fn par_allocate_and_generate_new_seeded_lwe_bootstrap_key<
    D: Copy + Send + Sync,
    F: Fn(&GlweSecretKey, u64, GgswParams, D, RandomSubstream) -> Vec<u64> + Sync,
>(
    input_lwe_secret_key: &LweSecretKey,
    output_glwe_secret_key: &GlweSecretKey,
    decomp_base_log: usize,
    decomp_level_count: usize,
    noise_distribution: D,
    ciphertext_modulus: CiphertextModulus,
    compression_seed: u128,
    encrypt: &F,
) -> (r: Result<SeededLweBootstrapKey, BootstrapKeyError>)
    requires
        is_row_encryptor::<D, F>(*encrypt),
        output_glwe_secret_key.glwe_dimension < usize::MAX,
        ggsw_len(allocation_params(output_glwe_secret_key, decomp_base_log, decomp_level_count, ciphertext_modulus)) <= usize::MAX,
    ensures
        ({
            let p = allocation_params(output_glwe_secret_key, decomp_base_log, decomp_level_count, ciphertext_modulus);
            let n = input_lwe_secret_key.data@.len() as usize;
            &&& (r is Ok <==> rows_fit(reseeded(compression_seed), p, n))
            &&& r is Ok ==> r->Ok_0.compression_seed == compression_seed
                && allocated_key(input_lwe_secret_key, output_glwe_secret_key, p, noise_distribution, reseeded(compression_seed), *encrypt, expanded(r->Ok_0))
            &&& r is Err ==> r == Err::<SeededLweBootstrapKey, BootstrapKeyError>(BootstrapKeyError::InsufficientEntropyConfiguration)
        }),
{
    let mut bsk = SeededLweBootstrapKey::new(
        0,
        output_glwe_secret_key.glwe_size(),
        output_glwe_secret_key.polynomial_size,
        decomp_base_log,
        decomp_level_count,
        input_lwe_secret_key.lwe_dimension(),
        compression_seed,
        ciphertext_modulus,
    );
    match par_generate_seeded_lwe_bootstrap_key(
        input_lwe_secret_key,
        output_glwe_secret_key,
        &mut bsk,
        noise_distribution,
        encrypt,
    ) {
        Ok(()) => Ok(bsk),
        Err(e) => Err(e),
    }
}

/// A row of `len` copies of `fill`.
fn filled_row(fill: u64, len: usize) -> (r: Vec<u64>)
    ensures
        r@ == Seq::new(len as nat, |_i: int| fill),
{
    let mut r: Vec<u64> = Vec::new();
    let mut i: usize = 0;
    while i < len
        invariant
            i <= len,
            r@ == Seq::new(i as nat, |_i: int| fill),
        decreases len - i,
    {
        r.push(fill);
        i = i + 1;
        assert(r@ =~= Seq::new(i as nat, |_i: int| fill));
    }
    r
}

/// `count` rows of the shape `params`, every scalar `fill`.
fn filled_rows(fill: u64, params: GgswParams, count: usize) -> (r: Vec<Vec<u64>>)
    requires
        ggsw_len(params) <= usize::MAX,
    ensures
        r@.len() == count,
        forall|i: int| 0 <= i < count ==> #[trigger] r@[i]@ == Seq::new(ggsw_len(params) as nat, |_j: int| fill),
{
    let len = ggsw_len_exec(params);
    let mut rows: Vec<Vec<u64>> = Vec::new();
    let mut i: usize = 0;
    while i < count
        invariant
            i <= count,
            len == ggsw_len(params),
            rows@.len() == i,
            forall|j: int| 0 <= j < i ==> #[trigger] rows@[j]@ == Seq::new(len as nat, |_j: int| fill),
        decreases count - i,
    {
        rows.push(filled_row(fill, len));
        i = i + 1;
    }
    rows
}

/// The partial products of `ggsw_len` are no larger than the whole.
proof fn lemma_ggsw_len_parts(p: GgswParams)
    requires
        p.glwe_size >= 1,
        p.decomp_level_count >= 1,
        p.polynomial_size >= 1,
    ensures
        p.glwe_size * p.glwe_size <= p.glwe_size * p.glwe_size * p.decomp_level_count,
        p.glwe_size * p.glwe_size * p.decomp_level_count <= ggsw_len(p),
{
    let (a, l, n) = (p.glwe_size as int, p.decomp_level_count as int, p.polynomial_size as int);
    assert(a * a <= a * a * l) by (nonlinear_arith) requires a >= 1, l >= 1;
    assert(a * a * l <= a * a * l * n) by (nonlinear_arith) requires a >= 1, l >= 1, n >= 1;
}

/// `ggsw_len` of a shape whose rows fit in memory.
fn ggsw_len_exec(p: GgswParams) -> (r: usize)
    requires
        ggsw_len(p) <= usize::MAX,
    ensures
        r == ggsw_len(p),
{
    if p.glwe_size == 0 || p.decomp_level_count == 0 || p.polynomial_size == 0 {
        assert(ggsw_len(p) == 0) by (nonlinear_arith)
            requires p.glwe_size == 0 || p.decomp_level_count == 0 || p.polynomial_size == 0;
        0
    } else {
        proof {
            lemma_ggsw_len_parts(p);
        }
        p.glwe_size * p.glwe_size * p.decomp_level_count * p.polynomial_size
    }
}

impl LweSecretKey {
    /// The number of coefficients of the key.
    pub fn lwe_dimension(&self) -> (r: usize)
        ensures
            r == self.data@.len(),
    {
        self.data.len()
    }
}

impl GlweSecretKey {
    /// The number of polynomials of a GLWE ciphertext under this key: the
    /// key's dimension plus the body.
    pub fn glwe_size(&self) -> (r: usize)
        requires
            self.glwe_dimension < usize::MAX,
        ensures
            r == self.glwe_dimension + 1,
    {
        self.glwe_dimension + 1
    }
}

impl LweBootstrapKey {
    /// A key of the given shape whose every scalar is `fill`.
    pub fn new(
        fill: u64,
        glwe_size: usize,
        polynomial_size: usize,
        decomp_base_log: usize,
        decomp_level_count: usize,
        input_lwe_dimension: usize,
        ciphertext_modulus: CiphertextModulus,
    ) -> (r: LweBootstrapKey)
        requires
            glwe_size * glwe_size * decomp_level_count * polynomial_size <= usize::MAX,
        ensures
            r.params == (GgswParams {
                glwe_size,
                polynomial_size,
                decomp_base_log,
                decomp_level_count,
                ciphertext_modulus,
            }),
            r.input_lwe_dimension == input_lwe_dimension,
            r.rows@.len() == input_lwe_dimension,
            forall|i: int| 0 <= i < input_lwe_dimension ==> #[trigger] r.rows@[i]@ == Seq::new(
                ggsw_len(r.params) as nat,
                |_j: int| fill,
            ),
    {
        let params = GgswParams {
            glwe_size,
            polynomial_size,
            decomp_base_log,
            decomp_level_count,
            ciphertext_modulus,
        };
        LweBootstrapKey { rows: filled_rows(fill, params, input_lwe_dimension), params, input_lwe_dimension }
    }

    /// The rows, in the order of the input key's coefficients.
    pub fn rows(&self) -> (r: &Vec<Vec<u64>>)
        ensures
            r == &self.rows,
    {
        &self.rows
    }

    pub fn glwe_size(&self) -> (r: usize)
        ensures
            r == self.params.glwe_size,
    {
        self.params.glwe_size
    }

    pub fn polynomial_size(&self) -> (r: usize)
        ensures
            r == self.params.polynomial_size,
    {
        self.params.polynomial_size
    }

    pub fn decomposition_base_log(&self) -> (r: usize)
        ensures
            r == self.params.decomp_base_log,
    {
        self.params.decomp_base_log
    }

    pub fn decomposition_level_count(&self) -> (r: usize)
        ensures
            r == self.params.decomp_level_count,
    {
        self.params.decomp_level_count
    }

    pub fn input_lwe_dimension(&self) -> (r: usize)
        ensures
            r == self.input_lwe_dimension,
    {
        self.input_lwe_dimension
    }

    pub fn ciphertext_modulus(&self) -> (r: CiphertextModulus)
        ensures
            r == self.params.ciphertext_modulus,
    {
        self.params.ciphertext_modulus
    }
}

impl SeededLweBootstrapKey {
    /// A seeded key of the given shape whose every scalar is `fill`, to be
    /// generated from `compression_seed`.
    pub fn new(
        fill: u64,
        glwe_size: usize,
        polynomial_size: usize,
        decomp_base_log: usize,
        decomp_level_count: usize,
        input_lwe_dimension: usize,
        compression_seed: u128,
        ciphertext_modulus: CiphertextModulus,
    ) -> (r: SeededLweBootstrapKey)
        requires
            glwe_size * glwe_size * decomp_level_count * polynomial_size <= usize::MAX,
        ensures
            r.params == (GgswParams {
                glwe_size,
                polynomial_size,
                decomp_base_log,
                decomp_level_count,
                ciphertext_modulus,
            }),
            r.input_lwe_dimension == input_lwe_dimension,
            r.compression_seed == compression_seed,
            r.rows@.len() == input_lwe_dimension,
            forall|i: int| 0 <= i < input_lwe_dimension ==> #[trigger] r.rows@[i]@ == Seq::new(
                ggsw_len(r.params) as nat,
                |_j: int| fill,
            ),
    {
        let k = LweBootstrapKey::new(
            fill,
            glwe_size,
            polynomial_size,
            decomp_base_log,
            decomp_level_count,
            input_lwe_dimension,
            ciphertext_modulus,
        );
        SeededLweBootstrapKey {
            rows: k.rows,
            params: k.params,
            input_lwe_dimension: k.input_lwe_dimension,
            compression_seed,
        }
    }

    pub fn compression_seed(&self) -> (r: u128)
        ensures
            r == self.compression_seed,
    {
        self.compression_seed
    }

    pub fn input_lwe_dimension(&self) -> (r: usize)
        ensures
            r == self.input_lwe_dimension,
    {
        self.input_lwe_dimension
    }

    /// The plain key that this seeded key stands for.
    pub fn expand(self) -> (r: LweBootstrapKey)
        ensures
            r == expanded(self),
    {
        LweBootstrapKey { rows: self.rows, params: self.params, input_lwe_dimension: self.input_lwe_dimension }
    }

}

} // verus!
