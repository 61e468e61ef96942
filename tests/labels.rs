use inventory_labels::{compose, text_scale_x, Bitmap, LIGHT};

fn filled(width: usize, height: usize, v: u8) -> Bitmap {
    Bitmap { width, height, rows: vec![vec![v; width]; height] }
}

#[test]
fn compose_places_symbol_and_text() {
    let symbol = filled(4, 4, 0);
    let text = filled(6, 2, 17);
    let label = compose(&symbol, &text, 6, 7);
    assert_eq!(label.width, 6);
    assert_eq!(label.height, 7);
    assert_eq!(label.rows.len(), 7);
    for y in 0..7 {
        assert_eq!(label.rows[y].len(), 6);
        for x in 0..6 {
            let expect = if x < 4 && y < 4 {
                0
            } else if (4..6).contains(&y) {
                17
            } else {
                LIGHT
            };
            assert_eq!(label.rows[y][x], expect, "pixel {},{}", x, y);
        }
    }
}

#[test]
fn compose_clips_to_canvas() {
    let symbol = filled(5, 5, 0);
    let text = filled(9, 9, 3);
    let label = compose(&symbol, &text, 3, 6);
    // the symbol's first three columns, then the first row of the text, cut to width
    let mut expect = vec![vec![0, 0, 0]; 5];
    expect.push(vec![3, 3, 3]);
    assert_eq!(label.rows, expect);
}

#[test]
fn compose_copies_symbol_pixels_exactly() {
    let symbol = Bitmap { width: 2, height: 2, rows: vec![vec![0, 255], vec![255, 0]] };
    let text = filled(0, 0, 0);
    let label = compose(&symbol, &text, 3, 3);
    assert_eq!(label.rows, vec![vec![0, 255, LIGHT], vec![255, 0, LIGHT], vec![LIGHT; 3]]);
}

#[test]
fn empty_name_still_gives_a_label() {
    let symbol = filled(3, 3, 0);
    let text = filled(3, 1, LIGHT);
    let label = compose(&symbol, &text, 3, 4);
    assert_eq!(label.rows[3], vec![LIGHT; 3]);
    assert_eq!(text_scale_x("", 300, 75), 75);
}

#[test]
fn text_scale_shrinks_with_length() {
    assert_eq!(text_scale_x("M3 Bolt", 300, 75), 75);
    assert_eq!(text_scale_x("Breadboarding Bin", 300, 75), 35);
    assert_eq!(text_scale_x("12345678", 300, 75), 75);
    assert_eq!(text_scale_x("123456789", 300, 75), 66);
    // characters, not bytes
    assert_eq!(text_scale_x("ééééééééé", 300, 75), 66);
    let mut last = u32::MAX;
    for n in 0..400 {
        let name = "x".repeat(n);
        let s = text_scale_x(&name, 300, 75);
        assert!(s <= last);
        last = s;
    }
    assert_eq!(text_scale_x(&"x".repeat(601), 300, 75), 0);
}
