use vstd::prelude::*;

use crate::label::Bitmap;

verus! {

/// Error-correction strength of a code: a stronger code survives more damage
/// and holds less.
#[derive(Debug, Clone, Copy, PartialEq, Eq, Structural)]
pub enum EccLevel {
    Low,
    Medium,
    Quartile,
    High,
}

/// Why a payload could not be encoded.
#[derive(Debug, Clone, Copy, PartialEq, Eq, Structural)]
pub enum EncodeError {
    /// The payload does not fit the largest code at the requested strength.
    PayloadTooLong,
    /// The requested side length is outside `MIN_SYMBOL_DIM ..= MAX_SYMBOL_DIM`.
    DimensionOutOfRange,
}

/// The smallest side length in pixels that draws every code: the largest
/// code is 177 modules wide, plus a quiet zone of one module on each side.
pub const MIN_SYMBOL_DIM: usize = 179;

/// The largest side length in pixels accepted for a code.
pub const MAX_SYMBOL_DIM: usize = 8192;

/// The code library's error, as `qr_image` hands it back.
#[verifier::external_type_specification]
#[verifier::external_body]
pub struct ExQRCodeError(qrcode_generator::QRCodeError);

/// Data bits of the largest code (version 40, 3706 codewords) at each
/// strength, after the 750, 1372, 2040 or 2430 codewords that error
/// correction takes.
pub open spec fn data_bits(ecc: EccLevel) -> int {
    match ecc {
        EccLevel::Low => 2956 * 8int,
        EccLevel::Medium => 2334 * 8int,
        EccLevel::Quartile => 1666 * 8int,
        EccLevel::High => 1276 * 8int,
    }
}

pub open spec fn is_digit(b: u8) -> bool {
    48 <= b <= 57
}

/// `0-9`, `A-Z`, space and `$ % * + - . / :`.
pub open spec fn is_alphanumeric(b: u8) -> bool {
    is_digit(b) || (65 <= b <= 90) || b == 32 || b == 36 || b == 37 || b == 42 || b == 43 || b
        == 45 || b == 46 || b == 47 || b == 58
}

pub open spec fn all_digits(data: Seq<u8>) -> bool {
    forall|i: int| 0 <= i < data.len() ==> is_digit(#[trigger] data[i])
}

pub open spec fn all_alphanumeric(data: Seq<u8>) -> bool {
    forall|i: int| 0 <= i < data.len() ==> is_alphanumeric(#[trigger] data[i])
}

/// Bits that the one segment chosen for `data` takes in a version 40 code:
/// numeric mode when every byte is a digit, else alphanumeric mode when every
/// byte is in that set, else byte mode; each with a 4-bit mode field and a
/// count field of 14, 13 or 16 bits. An empty payload takes no segment.
pub open spec fn segment_bits(data: Seq<u8>) -> int {
    let n = data.len() as int;
    if n == 0 {
        0
    } else if all_digits(data) {
        4 + 14 + 10 * (n / 3) + (if n % 3 == 0 {
            0int
        } else if n % 3 == 1 {
            4int
        } else {
            7int
        })
    } else if all_alphanumeric(data) {
        4 + 13 + 11 * (n / 2) + 6 * (n % 2)
    } else {
        4 + 16 + 8 * n
    }
}

/// `data` fits a code at strength `ecc`.
pub open spec fn qr_fits(data: Seq<u8>, ecc: EccLevel) -> bool {
    segment_bits(data) <= data_bits(ecc)
}

/// The raster that the code library draws for `data` at strength `ecc` on a
/// `size` by `size` canvas, row by row.
pub uninterp spec fn qr_raster(data: Seq<u8>, ecc: EccLevel, size: nat) -> Seq<u8>;

/// Relies on qrcode_generator::to_image (with qrcodegen underneath). It
/// encodes `data` with the segment mode that `segment_bits` describes, in the
/// smallest version that holds it at strength `ecc` (raising the strength
/// when that costs no size), and fails with `DataTooLong` exactly when even
/// version 40 cannot hold it. It then draws the code with a one-module quiet
/// zone, centred, on a `size` by `size` canvas of bytes, light 255 and dark
/// 0, row by row. Its size errors need `size` under 179 or at least 2^32.
#[verifier::external_body]
fn qr_image(data: &[u8], ecc: EccLevel, size: usize) -> (r: Result<
    Vec<u8>,
    qrcode_generator::QRCodeError,
>)
    requires
        MIN_SYMBOL_DIM <= size <= MAX_SYMBOL_DIM,
    ensures
        r is Ok <==> qr_fits(data@, ecc),
        r matches Ok(img) ==> {
            &&& img@ == qr_raster(data@, ecc, size as nat)
            &&& img@.len() == size * size
            &&& forall|i: int| 0 <= i < img@.len() ==> #[trigger] img@[i] == 0 || img@[i] == 255
        },
{
    let level = match ecc {
        EccLevel::Low => qrcode_generator::QrCodeEcc::Low,
        EccLevel::Medium => qrcode_generator::QrCodeEcc::Medium,
        EccLevel::Quartile => qrcode_generator::QrCodeEcc::Quartile,
        EccLevel::High => qrcode_generator::QrCodeEcc::High,
    };
    qrcode_generator::to_image(data, level, size)
}

/// `bm` is a `width` by `height` bitmap whose pixels are `flat`, row by row.
pub open spec fn holds_raster(bm: &Bitmap, flat: Seq<u8>, width: int, height: int) -> bool {
    &&& bm.wf()
    &&& bm.width == width
    &&& bm.height == height
    &&& forall|x: int, y: int|
        0 <= x < width && 0 <= y < height ==> #[trigger] bm.pixel(x, y) == flat[y * width + x]
}

/// `bm` is the code for `payload` at strength `ecc`, `dim` pixels square.
pub open spec fn encodes(bm: &Bitmap, payload: Seq<u8>, ecc: EccLevel, dim: int) -> bool {
    &&& holds_raster(bm, qr_raster(payload, ecc, dim as nat), dim, dim)
    &&& bm.bi_level()
}

/// What encoding `payload` at strength `ecc` on `dim` pixels a side gives:
/// a refused size, a payload too long, or the code.
pub open spec fn encode_outcome(
    payload: Seq<u8>,
    ecc: EccLevel,
    dim: int,
    r: Result<Bitmap, EncodeError>,
) -> bool {
    if !(MIN_SYMBOL_DIM <= dim <= MAX_SYMBOL_DIM) {
        r == Err::<Bitmap, EncodeError>(EncodeError::DimensionOutOfRange)
    } else if !qr_fits(payload, ecc) {
        r == Err::<Bitmap, EncodeError>(EncodeError::PayloadTooLong)
    } else {
        r matches Ok(bm) && encodes(&bm, payload, ecc, dim)
    }
}

/// Encodes `payload` as a square code of `dimension` pixels a side, every
/// pixel dark (0) or light (255).
pub fn encode(payload: &[u8], strength: EccLevel, dimension: usize) -> (r: Result<
    Bitmap,
    EncodeError,
>)
    ensures
        encode_outcome(payload@, strength, dimension as int, r),
{
    if dimension < MIN_SYMBOL_DIM || dimension > MAX_SYMBOL_DIM {
        return Err(EncodeError::DimensionOutOfRange);
    }
    let flat = match qr_image(payload, strength, dimension) {
        Ok(img) => img,
        Err(_) => {
            return Err(EncodeError::PayloadTooLong);
        },
    };
    let ghost raster = qr_raster(payload@, strength, dimension as nat);
    let mut rows: Vec<Vec<u8>> = Vec::new();
    let mut y: usize = 0;
    while y < dimension
        invariant
            MIN_SYMBOL_DIM <= dimension <= MAX_SYMBOL_DIM,
            flat@ == raster,
            flat@.len() == dimension * dimension,
            forall|i: int| 0 <= i < flat@.len() ==> #[trigger] flat@[i] == 0 || flat@[i] == 255,
            y <= dimension,
            rows@.len() == y,
            forall|yy: int| 0 <= yy < y ==> #[trigger] rows@[yy]@.len() == dimension,
            forall|xx: int, yy: int|
                0 <= xx < dimension && 0 <= yy < y ==> #[trigger] rows@[yy]@[xx] == raster[yy
                    * dimension + xx],
        decreases dimension - y,
    {
        assert((y + 1) * dimension <= dimension * dimension <= MAX_SYMBOL_DIM * MAX_SYMBOL_DIM)
            by (nonlinear_arith)
            requires
                y < dimension <= MAX_SYMBOL_DIM,
        ;
        assert((y + 1) * dimension == y * dimension + dimension) by (nonlinear_arith);
        let base = y * dimension;
        let mut row: Vec<u8> = Vec::new();
        let mut x: usize = 0;
        while x < dimension
            invariant
                base == y * dimension,
                base + dimension <= flat@.len() <= MAX_SYMBOL_DIM * MAX_SYMBOL_DIM,
                x <= dimension,
                row@.len() == x,
                forall|xx: int| 0 <= xx < x ==> #[trigger] row@[xx] == flat@[base + xx],
            decreases dimension - x,
        {
            row.push(flat[base + x]);
            x = x + 1;
        }
        rows.push(row);
        y = y + 1;
    }
    let bm = Bitmap { width: dimension, height: dimension, rows };
    assert forall|x: int, y: int| 0 <= x < dimension && 0 <= y < dimension implies bm.pixel(x, y)
        == 0 || bm.pixel(x, y) == 255 by {
        assert(0 <= y * dimension + x < dimension * dimension) by (nonlinear_arith)
            requires
                0 <= x < dimension,
                0 <= y < dimension,
        ;
        assert(bm.pixel(x, y) == raster[y * dimension + x]);
    }
    Ok(bm)
}

/// The longest payload of its kind that fits at strength `ecc`: all digits,
/// all alphanumeric, or anything else, counted in bytes.
pub open spec fn capacity(data: Seq<u8>, ecc: EccLevel) -> int {
    if all_digits(data) {
        match ecc {
            EccLevel::Low => 7089,
            EccLevel::Medium => 5596,
            EccLevel::Quartile => 3993,
            EccLevel::High => 3057,
        }
    } else if all_alphanumeric(data) {
        match ecc {
            EccLevel::Low => 4296,
            EccLevel::Medium => 3391,
            EccLevel::Quartile => 2420,
            EccLevel::High => 1852,
        }
    } else {
        match ecc {
            EccLevel::Low => 2953,
            EccLevel::Medium => 2331,
            EccLevel::Quartile => 1663,
            EccLevel::High => 1273,
        }
    }
}

/// Encoding a payload longer than its capacity at the strength fails with
/// `PayloadTooLong`; one of at most that length, up to the capacity itself,
/// is encoded.
pub proof fn lemma_capacity(payload: Seq<u8>, ecc: EccLevel, dim: int, r: Result<Bitmap, EncodeError>)
    requires
        MIN_SYMBOL_DIM <= dim <= MAX_SYMBOL_DIM,
        encode_outcome(payload, ecc, dim, r),
    ensures
        payload.len() > capacity(payload, ecc) ==> r == Err::<Bitmap, EncodeError>(
            EncodeError::PayloadTooLong,
        ),
        payload.len() <= capacity(payload, ecc) ==> r is Ok,
{
    assert(qr_fits(payload, ecc) <==> payload.len() <= capacity(payload, ecc));
}

/// Encoding is a function of its arguments: two encodings of one payload at
/// one strength and size end alike, and when they succeed their pixels are
/// identical.
pub proof fn lemma_encode_deterministic(
    payload: Seq<u8>,
    ecc: EccLevel,
    dim: int,
    a: Result<Bitmap, EncodeError>,
    b: Result<Bitmap, EncodeError>,
)
    requires
        encode_outcome(payload, ecc, dim, a),
        encode_outcome(payload, ecc, dim, b),
    ensures
        a is Ok <==> b is Ok,
        a matches Err(e) ==> b == Err::<Bitmap, EncodeError>(e),
        a matches Ok(x) ==> (b matches Ok(y) && x.width == y.width && x.height == y.height
            && x.grid() == y.grid()),
{
    if let Ok(x) = a {
        if let Ok(y) = b {
            assert forall|row: int| 0 <= row < x.height implies x.rows@[row]@ =~= y.rows@[row]@ by {
                assert forall|col: int| 0 <= col < x.width implies x.rows@[row]@[col]
                    == y.rows@[row]@[col] by {
                    assert(x.pixel(col, row) == y.pixel(col, row));
                }
            }
            assert(x.grid() =~= y.grid());
        }
    }
}

} // verus!
