//! The compression pipeline: re-encode an uploaded image to a fixed square
//! dimension before persisting it.
//!
//! The decode and encode steps run in the host inside an isolated failure
//! boundary, because the codec aborts by unwinding on malformed input; the
//! library verifies everything around them: the size of the pixel buffers,
//! the nearest-neighbour scaling of the decoded pixels to the fixed
//! dimension, and the persistence of the re-encoded bytes, for every
//! possible outcome of the codec.

use vstd::prelude::*;
use vstd::arithmetic::div_mod::{lemma_fundamental_div_mod_converse, lemma_multiply_divide_lt};
use crate::error::ServiceError;
use crate::ingest::{key_for_name, spec_name_or_default};
use crate::keys::allocate_key;
use crate::store::Store;

verus! {

/// Side length, in pixels, of the square re-encoded output image.
pub const REENCODE_DIM: usize = 40;

/// Greatest pixel dimension a JPEG image can have on either axis.
pub const MAX_JPEG_DIM: usize = 65535;

/// Byte length of a tightly packed RGB pixel buffer.
pub open spec fn rgb_len(w: int, h: int) -> int {
    w * h * 3
}

/// Flat byte index of channel `c` of pixel (x, y) in a tightly packed RGB
/// image of the given width.
pub open spec fn flat_idx(y: int, x: int, c: int, w: int) -> int {
    (y * w + x) * 3 + c
}

/// The source byte that nearest-neighbour scaling reads for output byte
/// `k`, when scaling a `sw` by `sh` RGB image to `dim` by `dim`.
pub open spec fn src_byte(k: int, sw: int, sh: int, dim: int) -> int {
    let y = k / (dim * 3);
    let x = (k % (dim * 3)) / 3;
    let c = k % 3;
    ((y * sh / dim) * sw + (x * sw / dim)) * 3 + c
}

/// Byte length of the square RGB buffer for a given dimension, or nothing
/// when it does not fit the machine's word.
pub fn rgb_buffer_len(dim: usize) -> (r: Option<usize>)
    ensures
        r matches Some(n) ==> n == rgb_len(dim as int, dim as int),
        r is None ==> rgb_len(dim as int, dim as int) > usize::MAX,
{
    match dim.checked_mul(dim) {
        None => {
            proof {
                assert(dim * dim <= dim * dim * 3) by (nonlinear_arith)
                    requires
                        dim >= 0,
                ;
            }
            None
        },
        Some(a) => a.checked_mul(3),
    }
}

/// Index bookkeeping for one output byte of the scaling pass.
proof fn lemma_scale_index(y: int, x: int, c: int, sw: int, sh: int, dim: int)
    requires
        0 <= y < dim,
        0 <= x < dim,
        0 <= c < 3,
        0 < sw <= MAX_JPEG_DIM,
        0 < sh <= MAX_JPEG_DIM,
        0 < dim <= MAX_JPEG_DIM,
    ensures
        y * sh <= 65535 * 65535,
        x * sw <= 65535 * 65535,
        0 <= y * sh / dim < sh,
        0 <= x * sw / dim < sw,
        0 <= (y * sh / dim) * sw,
        0 <= sw * sh,
        (y * sh / dim) * sw + (x * sw / dim) < sw * sh,
        ((y * sh / dim) * sw + (x * sw / dim)) * 3 + c < rgb_len(sw, sh),
        (y * dim + x) * 3 + c + 1 <= rgb_len(dim, dim),
        src_byte((y * dim + x) * 3 + c, sw, sh, dim) == ((y * sh / dim) * sw + (x * sw / dim)) * 3
            + c,
{
    assert(y * sh < dim * sh && y * sh <= 65535 * 65535 && x * sw < dim * sw && x * sw <= 65535
        * 65535 && 0 <= y * sh && 0 <= x * sw) by (nonlinear_arith)
        requires
            0 <= y < dim,
            0 <= x < dim,
            0 < sw <= 65535,
            0 < sh <= 65535,
            0 < dim <= 65535,
    ;
    lemma_multiply_divide_lt(y * sh, dim, sh);
    lemma_multiply_divide_lt(x * sw, dim, sw);
    let sy = y * sh / dim;
    let sx = x * sw / dim;
    assert(0 <= sy * sw && 0 <= sw * sh && sy * sw + sx < sw * sh && (sy * sw + sx) * 3 + c < sw
        * sh * 3 && (y * dim + x) * 3 + c + 1 <= dim * dim * 3) by (nonlinear_arith)
        requires
            0 <= sy < sh,
            0 <= sx < sw,
            0 <= c < 3,
            0 < sw,
            0 < sh,
            0 <= y < dim,
            0 <= x < dim,
    ;
    let k = (y * dim + x) * 3 + c;
    assert(k == y * (dim * 3) + (x * 3 + c) && 0 <= x * 3 + c < dim * 3 && k == (y * dim + x) * 3
        + c) by (nonlinear_arith)
        requires
            0 <= x < dim,
            0 <= c < 3,
            0 < dim,
            k == (y * dim + x) * 3 + c,
    ;
    lemma_fundamental_div_mod_converse(k, dim * 3, y, x * 3 + c);
    lemma_fundamental_div_mod_converse(x * 3 + c, 3, x, c);
    lemma_fundamental_div_mod_converse(k, 3, y * dim + x, c);
}

/// Scale a tightly packed RGB image to a square of the given dimension by
/// nearest-neighbour sampling: output pixel (x, y) is a copy of source
/// pixel (x * sw / dim, y * sh / dim).
#[verifier::loop_isolation(false)]
pub fn scale_rgb(pixels: &Vec<u8>, sw: usize, sh: usize, dim: usize) -> (out: Vec<u8>)
    requires
        0 < sw <= MAX_JPEG_DIM,
        0 < sh <= MAX_JPEG_DIM,
        0 < dim <= MAX_JPEG_DIM,
        pixels@.len() == rgb_len(sw as int, sh as int),
    ensures
        out@.len() == rgb_len(dim as int, dim as int),
        forall|y: int, x: int, c: int|
            0 <= y < dim && 0 <= x < dim && 0 <= c < 3 ==> out@[#[trigger] flat_idx(
                y,
                x,
                c,
                dim as int,
            )] == pixels@[flat_idx(
                y * (sh as int) / (dim as int),
                x * (sw as int) / (dim as int),
                c,
                sw as int,
            )],
{
    let plen = pixels.len();
    let mut out: Vec<u8> = Vec::new();
    let mut y: usize = 0;
    while y < dim
        invariant
            y <= dim,
            out@.len() == y * (dim * 3),
            forall|k: int|
                0 <= k < out@.len() ==> out@[k] == pixels@[src_byte(
                    k,
                    sw as int,
                    sh as int,
                    dim as int,
                )],
        decreases dim - y,
    {
        let sy = ({
            proof {
                lemma_scale_index(y as int, 0, 0, sw as int, sh as int, dim as int);
            }
            y * sh
        }) / dim;
        let mut x: usize = 0;
        while x < dim
            invariant
                x <= dim,
                sy == y as int * (sh as int) / (dim as int),
                out@.len() == y * (dim * 3) + x * 3,
                forall|k: int|
                    0 <= k < out@.len() ==> out@[k] == pixels@[src_byte(
                        k,
                        sw as int,
                        sh as int,
                        dim as int,
                    )],
            decreases dim - x,
        {
            let sx = ({
                proof {
                    lemma_scale_index(y as int, x as int, 0, sw as int, sh as int, dim as int);
                }
                x * sw
            }) / dim;
            let mut c: usize = 0;
            while c < 3
                invariant
                    c <= 3,
                    sy == y as int * (sh as int) / (dim as int),
                    sx == x as int * (sw as int) / (dim as int),
                    out@.len() == y * (dim * 3) + x * 3 + c,
                    forall|k: int|
                        0 <= k < out@.len() ==> out@[k] == pixels@[src_byte(
                            k,
                            sw as int,
                            sh as int,
                            dim as int,
                        )],
                decreases 3 - c,
            {
                proof {
                    lemma_scale_index(
                        y as int,
                        x as int,
                        c as int,
                        sw as int,
                        sh as int,
                        dim as int,
                    );
                    assert(out@.len() == (y as int * dim + x) * 3 + c) by (nonlinear_arith)
                        requires
                            out@.len() == y * (dim * 3) + x * 3 + c,
                    ;
                }
                let idx = (sy * sw + sx) * 3 + c;
                out.push(pixels[idx]);
                c = c + 1;
            }
            x = x + 1;
        }
        proof {
            assert(y * (dim * 3) + dim * 3 == (y + 1) * (dim * 3)) by (nonlinear_arith);
        }
        y = y + 1;
    }
    proof {
        assert(dim * (dim * 3) == rgb_len(dim as int, dim as int)) by (nonlinear_arith);
        assert forall|y: int, x: int, c: int|
            0 <= y < dim && 0 <= x < dim && 0 <= c < 3 implies out@[#[trigger] flat_idx(
            y,
            x,
            c,
            dim as int,
        )] == pixels@[flat_idx(
            y * (sh as int) / (dim as int),
            x * (sw as int) / (dim as int),
            c,
            sw as int,
        )] by {
            lemma_scale_index(y, x, c, sw as int, sh as int, dim as int);
            assert(0 <= flat_idx(y, x, c, dim as int) < out@.len());
        }
    }
    out
}

/// Persist the outcome of the host-run, failure-isolated re-encode step.
///
/// A missing outcome — the codec failed or faulted — is surfaced as a
/// `CompressionFailure` and leaves the store untouched; re-encoded bytes
/// are persisted under a fresh key for the declared filename, exactly as a
/// plain ingest would persist the original payload.
pub fn store_reencoded(
    store: &mut Store,
    filename: &Option<String>,
    reencoded: Option<Vec<u8>>,
) -> (r: Result<String, ServiceError>)
    requires
        old(store).inv(),
    ensures
        final (store).inv(),
        reencoded is None ==> (r matches Err(e) && e is CompressionFailure && *final (store)
            == *old(store)),
        reencoded matches Some(bytes) ==> (r matches Ok(k) && key_for_name(
            k@,
            spec_name_or_default(*filename),
        ) && final (store).contents() == old(store).contents().insert(k@, bytes@) && final (
        store).root_ensured()),
{
    match reencoded {
        None => Err(ServiceError::CompressionFailure),
        Some(bytes) => {
            let key = match filename {
                Some(n) => allocate_key(n.as_str()),
                None => allocate_key("upload.jpg"),
            };
            store.ensure_root();
            match store.write(key.clone(), bytes) {
                Ok(()) => Ok(key),
                Err(_) => {
                    proof {
                        assert(false);
                    }
                    Err(ServiceError::StorageFailure)
                },
            }
        },
    }
}

} // verus!
