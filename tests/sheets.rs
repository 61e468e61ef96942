use inventory_labels::{
    a4_sheet, generate_qr_code, generate_qr_label, index, plan_qr_sheet, rocket, scan_target_bytes,
    AppState, Bitmap, EncodeError, LABEL_HEIGHT, LABEL_WIDTH, LIGHT, QR_CODE_DIMENSION,
};

fn name_area(v: u8) -> Bitmap {
    Bitmap {
        width: LABEL_WIDTH,
        height: LABEL_HEIGHT - QR_CODE_DIMENSION,
        rows: vec![vec![v; LABEL_WIDTH]; LABEL_HEIGHT - QR_CODE_DIMENSION],
    }
}

fn state() -> AppState {
    AppState { root_url: String::from("http://foobar.com") }
}

#[test]
fn scan_target_is_root_route_id() {
    assert_eq!(scan_target_bytes("http://foobar.com", "container", 2), b"http://foobar.com/container/2".to_vec());
    assert_eq!(scan_target_bytes("http://foobar.com", "item", 0), b"http://foobar.com/item/0".to_vec());
    assert_eq!(scan_target_bytes("", "item", 1234567890), b"/item/1234567890".to_vec());
    assert_eq!(scan_target_bytes("r", "s", -45), b"r/s/-45".to_vec());
    assert_eq!(scan_target_bytes("r", "s", i64::MIN), format!("r/s/{}", i64::MIN).into_bytes());
    assert_eq!(scan_target_bytes("r", "s", i64::MAX), format!("r/s/{}", i64::MAX).into_bytes());
    assert_eq!(scan_target_bytes("ü", "é", 7), "ü/é/7".as_bytes().to_vec());
}

#[test]
fn qr_code_encodes_the_locator() {
    let code = generate_qr_code(&state(), 1, "container").unwrap();
    let direct = inventory_labels::encode(b"http://foobar.com/container/1", inventory_labels::EccLevel::Low, 300).unwrap();
    assert_eq!(code.rows, direct.rows);
    assert_eq!(code.width, QR_CODE_DIMENSION);
}

#[test]
fn qr_label_holds_code_and_name() {
    let st = state();
    let label = generate_qr_label(&st, 5, &name_area(9), "item").unwrap();
    let code = generate_qr_code(&st, 5, "item").unwrap();
    assert_eq!(label.width, LABEL_WIDTH);
    assert_eq!(label.height, LABEL_HEIGHT);
    for y in 0..QR_CODE_DIMENSION {
        assert_eq!(label.rows[y], code.rows[y]);
    }
    for y in QR_CODE_DIMENSION..LABEL_HEIGHT {
        assert_eq!(label.rows[y], vec![9; LABEL_WIDTH]);
    }
}

#[test]
fn overlong_locator_is_an_error() {
    let st = AppState { root_url: "h".repeat(3000) };
    assert_eq!(generate_qr_code(&st, 1, "item").err(), Some(EncodeError::PayloadTooLong));
    assert_eq!(generate_qr_label(&st, 1, &name_area(LIGHT), "item").err(), Some(EncodeError::PayloadTooLong));
}

#[test]
fn two_records_share_a_row() {
    let requests = vec![(1i64, name_area(LIGHT)), (2i64, name_area(LIGHT))];
    let cfg = a4_sheet();
    let sheet = plan_qr_sheet(&state(), &requests, "item", &cfg);
    assert!(sheet.failed.is_empty());
    assert_eq!(sheet.document.labels.len(), 2);
    assert_eq!(sheet.document.pages.len(), 1);
    let p = &sheet.document.pages[0].placements;
    assert_eq!(p.len(), 2);
    assert_eq!(p[0].y, p[1].y);
    assert_eq!(p[1].x - p[0].x, cfg.pitch_x);
    assert_eq!(p[0].label, 0);
    assert_eq!(p[1].label, 1);
    let first = generate_qr_label(&state(), 1, &name_area(LIGHT), "item").unwrap();
    assert_eq!(sheet.document.labels[0].rows, first.rows);
}

#[test]
fn failing_record_is_reported_and_others_render() {
    let long_route = "r".repeat(2940);
    // "http://foobar.com/" + route + "/" + id: 18 + 2940 + 1 + 1 = 2960 bytes, over 2953
    let requests = vec![(7i64, name_area(LIGHT))];
    let sheet = plan_qr_sheet(&state(), &requests, &long_route, &a4_sheet());
    assert_eq!(sheet.failed, vec![7]);
    assert!(sheet.document.labels.is_empty());
    assert_eq!(sheet.document.pages.len(), 1);
    assert!(sheet.document.pages[0].placements.is_empty());

    let route = "r".repeat(2933);
    // ids 1..9 give 2953 bytes and fit, 10 gives 2954 and does not
    let requests: Vec<(i64, Bitmap)> = vec![(1, name_area(LIGHT)), (10, name_area(LIGHT)), (3, name_area(LIGHT))];
    let sheet = plan_qr_sheet(&state(), &requests, &route, &a4_sheet());
    assert_eq!(sheet.failed, vec![10]);
    assert_eq!(sheet.document.labels.len(), 2);
    let third = generate_qr_label(&state(), 3, &name_area(LIGHT), &route).unwrap();
    assert_eq!(sheet.document.labels[1].rows, third.rows);
}

#[test]
fn greeting_and_launch_state() {
    assert_eq!(index(), "Hello, world!");
    assert_eq!(rocket().root_url, "http://foobar.com");
}
