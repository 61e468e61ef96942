use vstd::prelude::*;
use vstd::string::*;
use vstd::utf8::encode_utf8;

use crate::label::{compose, Bitmap, LIGHT};
use crate::layout::{laid_out, layout, Document, SheetConfig};
use crate::records::AppState;
use crate::symbol::{encode, encode_outcome, qr_fits, qr_raster, EccLevel, EncodeError};

verus! {

/// Side length in pixels of the code on a label.
pub const QR_CODE_DIMENSION: usize = 300;

/// Width in pixels of a label.
pub const LABEL_WIDTH: usize = 300;

/// Height in pixels of a label: the code, and a quarter of its size for the name below it.
pub const LABEL_HEIGHT: usize = 375;

/// Decimal digits of `n`, most significant first.
pub open spec fn decimal(n: nat) -> Seq<u8>
    decreases n,
{
    if n < 10 {
        seq![(48 + n) as u8]
    } else {
        decimal(n / 10).push((48 + n % 10) as u8)
    }
}

/// `id` written in decimal, with a leading `-` when negative.
pub open spec fn id_text(id: i64) -> Seq<u8> {
    if id < 0 {
        seq![45u8] + decimal((-id) as nat)
    } else {
        decimal(id as nat)
    }
}

/// The locator a label resolves to: `{root_url}/{route}/{id}`, as UTF-8.
pub open spec fn scan_target(root_url: Seq<char>, route: Seq<char>, id: i64) -> Seq<u8> {
    encode_utf8(root_url) + seq![47u8] + encode_utf8(route) + seq![47u8] + id_text(id)
}

fn push_decimal(out: &mut Vec<u8>, n: u64)
    ensures
        final(out)@ == old(out)@ + decimal(n as nat),
    decreases n,
{
    if n >= 10 {
        push_decimal(out, n / 10);
    }
    out.push(48 + (n % 10) as u8);
}

fn push_bytes(out: &mut Vec<u8>, bytes: &[u8])
    ensures
        final(out)@ == old(out)@ + bytes@,
{
    let ghost start = out@;
    let mut i: usize = 0;
    while i < bytes.len()
        invariant
            i <= bytes@.len(),
            out@ == start + bytes@.subrange(0, i as int),
        decreases bytes@.len() - i,
    {
        out.push(bytes[i]);
        i = i + 1;
        assert(out@ =~= start + bytes@.subrange(0, i as int));
    }
    assert(bytes@.subrange(0, i as int) =~= bytes@);
}

/// Builds the locator a label for record `id` of `model_route` resolves to.
pub fn scan_target_bytes(root_url: &str, model_route: &str, id: i64) -> (r: Vec<u8>)
    ensures
        r@ == scan_target(root_url@, model_route@, id),
{
    let mut out: Vec<u8> = Vec::new();
    push_bytes(&mut out, root_url.as_bytes());
    out.push(47);
    push_bytes(&mut out, model_route.as_bytes());
    out.push(47);
    if id < 0 {
        out.push(45);
        let magnitude: u64 = ((-(id + 1)) as u64) + 1;
        push_decimal(&mut out, magnitude);
    } else {
        push_decimal(&mut out, id as u64);
    }
    assert(out@ =~= scan_target(root_url@, model_route@, id));
    out
}

/// The code for record `id` of `model_route`: its locator under the state's
/// root URL, at low error correction, `QR_CODE_DIMENSION` pixels a side.
pub fn generate_qr_code(state: &AppState, id: i64, model_route: &str) -> (r: Result<
    Bitmap,
    EncodeError,
>)
    ensures
        encode_outcome(
            scan_target(state.root_url@, model_route@, id),
            EccLevel::Low,
            QR_CODE_DIMENSION as int,
            r,
        ),
{
    let target = scan_target_bytes(state.root_url.as_str(), model_route, id);
    encode(target.as_slice(), EccLevel::Low, QR_CODE_DIMENSION)
}

/// `label` is the label for the locator `target` with the name raster `text`:
/// the code's pixels in the top left corner, the name below, light elsewhere.
pub open spec fn label_for(label: &Bitmap, target: Seq<u8>, text: &Bitmap) -> bool {
    let dim = QR_CODE_DIMENSION as int;
    let code = qr_raster(target, EccLevel::Low, dim as nat);
    &&& label.wf()
    &&& label.width == LABEL_WIDTH
    &&& label.height == LABEL_HEIGHT
    &&& forall|x: int, y: int|
        0 <= x < LABEL_WIDTH && 0 <= y < LABEL_HEIGHT ==> #[trigger] label.pixel(x, y) == if x < dim
            && y < dim {
            code[y * dim + x]
        } else if dim <= y < dim + text.height && x < text.width {
            text.pixel(x, y - dim)
        } else {
            LIGHT
        }
}

/// The label for record `id` of `model_route`, its name already rendered as
/// `name_text`.
pub fn generate_qr_label(state: &AppState, id: i64, name_text: &Bitmap, model_route: &str) -> (r:
    Result<Bitmap, EncodeError>)
    requires
        name_text.wf(),
    ensures
        !qr_fits(scan_target(state.root_url@, model_route@, id), EccLevel::Low) ==> r == Err::<
            Bitmap,
            EncodeError,
        >(EncodeError::PayloadTooLong),
        qr_fits(scan_target(state.root_url@, model_route@, id), EccLevel::Low) ==> (r matches Ok(
            label,
        ) && label_for(&label, scan_target(state.root_url@, model_route@, id), name_text)),
{
    let code = generate_qr_code(state, id, model_route);
    match code {
        Ok(symbol) => {
            let label = compose(&symbol, name_text, LABEL_WIDTH, LABEL_HEIGHT);
            Ok(label)
        },
        Err(e) => Err(e),
    }
}

/// A planned sheet: the laid out labels, and the records that got none.
pub struct Sheet {
    pub document: Document,
    pub failed: Vec<i64>,
}

pub open spec fn request_ids(requests: Seq<(i64, Bitmap)>) -> Seq<i64> {
    requests.map_values(|q: (i64, Bitmap)| q.0)
}

/// Positions, in order, of the records whose locator fits a code.
pub open spec fn kept(root_url: Seq<char>, route: Seq<char>, ids: Seq<i64>) -> Seq<int>
    decreases ids.len(),
{
    if ids.len() == 0 {
        Seq::empty()
    } else {
        let before = kept(root_url, route, ids.drop_last());
        if qr_fits(scan_target(root_url, route, ids.last()), EccLevel::Low) {
            before.push(ids.len() - 1)
        } else {
            before
        }
    }
}

/// The records, in order, whose locator does not fit a code.
pub open spec fn refused(root_url: Seq<char>, route: Seq<char>, ids: Seq<i64>) -> Seq<i64>
    decreases ids.len(),
{
    if ids.len() == 0 {
        Seq::empty()
    } else {
        let before = refused(root_url, route, ids.drop_last());
        if qr_fits(scan_target(root_url, route, ids.last()), EccLevel::Low) {
            before
        } else {
            before.push(ids.last())
        }
    }
}

proof fn lemma_kept_in_range(root_url: Seq<char>, route: Seq<char>, ids: Seq<i64>)
    ensures
        forall|j: int|
            0 <= j < kept(root_url, route, ids).len() ==> 0 <= #[trigger] kept(root_url, route, ids)[j]
                < ids.len(),
    decreases ids.len(),
{
    if ids.len() > 0 {
        let before = ids.drop_last();
        lemma_kept_in_range(root_url, route, before);
        assert forall|j: int| 0 <= j < kept(root_url, route, ids).len() implies 0 <= #[trigger] kept(
            root_url,
            route,
            ids,
        )[j] < ids.len() by {
            if j < kept(root_url, route, before).len() {
                assert(kept(root_url, route, ids)[j] == kept(root_url, route, before)[j]);
            }
        }
    }
}

/// Plans a sheet for records of `model_route`, each given as its id and its
/// rendered name: one label per record whose locator fits a code, laid out in
/// the records' order. A record whose locator is too long gets no label and
/// is listed in `failed`; the others are unaffected.
pub fn plan_qr_sheet(
    state: &AppState,
    requests: &Vec<(i64, Bitmap)>,
    model_route: &str,
    cfg: &SheetConfig,
) -> (r: Sheet)
    requires
        cfg.valid(),
        forall|i: int| 0 <= i < requests@.len() ==> (#[trigger] requests@[i]).1.wf(),
    ensures
        r.failed@ == refused(state.root_url@, model_route@, request_ids(requests@)),
        r.document.labels@.len() == kept(state.root_url@, model_route@, request_ids(requests@)).len(),
        forall|j: int|
            0 <= j < r.document.labels@.len() ==> label_for(
                &#[trigger] r.document.labels@[j],
                scan_target(
                    state.root_url@,
                    model_route@,
                    requests@[kept(state.root_url@, model_route@, request_ids(requests@))[j]].0,
                ),
                &requests@[kept(state.root_url@, model_route@, request_ids(requests@))[j]].1,
            ),
        laid_out(&r.document, r.document.labels@.len() as int, cfg),
{
    let ghost root = state.root_url@;
    let ghost route = model_route@;
    let ghost ids = request_ids(requests@);
    let mut labels: Vec<Bitmap> = Vec::new();
    let mut failed: Vec<i64> = Vec::new();
    let mut i: usize = 0;
    while i < requests.len()
        invariant
            cfg.valid(),
            forall|i: int| 0 <= i < requests@.len() ==> (#[trigger] requests@[i]).1.wf(),
            root == state.root_url@,
            route == model_route@,
            ids == request_ids(requests@),
            i <= requests@.len(),
            labels@.len() == kept(root, route, ids.take(i as int)).len(),
            failed@ == refused(root, route, ids.take(i as int)),
            forall|j: int|
                0 <= j < labels@.len() ==> label_for(
                    &#[trigger] labels@[j],
                    scan_target(root, route, requests@[kept(root, route, ids.take(i as int))[j]].0),
                    &requests@[kept(root, route, ids.take(i as int))[j]].1,
                ),
        decreases requests@.len() - i,
    {
        let ghost before = ids.take(i as int);
        let id = requests[i].0;
        let outcome = generate_qr_label(state, id, &requests[i].1, model_route);
        assert(ids.take(i + 1).drop_last() =~= before);
        assert(ids.take(i + 1).last() == id);
        proof {
            lemma_kept_in_range(root, route, before);
        }
        match outcome {
            Ok(label) => {
                labels.push(label);
            },
            Err(_) => {
                failed.push(id);
            },
        }
        i = i + 1;
    }
    assert(ids.take(i as int) =~= ids);
    let document = layout(labels, cfg);
    Sheet { document, failed }
}

/// Resolution the labels are printed at, in dots per inch.
pub const LABEL_DPI: u64 = 300;

/// Micrometres that `px` pixels span when printed at `LABEL_DPI`.
pub open spec fn span(px: int) -> int {
    px * 25400 / (LABEL_DPI as int)
}

/// The sheet labels are printed on: A4 portrait, eight labels to a row,
/// a 0.76 mm margin, cells 26.16 mm apart across and 33.11 mm apart down.
pub fn a4_sheet() -> (r: SheetConfig)
    ensures
        r.valid(),
        r.page_width == 210_000,
        r.page_height == 297_000,
        r.cell_width == span(LABEL_WIDTH as int),
        r.cell_height == span(LABEL_HEIGHT as int),
        r.pitch_x == 26_160,
        r.pitch_y == 33_110,
        r.margin == 760,
        r.cols_per_row == 8,
{
    let r = SheetConfig {
        page_width: 210_000,
        page_height: 297_000,
        cell_width: (LABEL_WIDTH as u64) * 25400 / LABEL_DPI,
        cell_height: (LABEL_HEIGHT as u64) * 25400 / LABEL_DPI,
        pitch_x: 26_160,
        pitch_y: 33_110,
        margin: 760,
        cols_per_row: 8,
    };
    assert(r.valid());
    r
}

} // verus!
