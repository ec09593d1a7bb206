//! Tests of the pixel buffer and the script-facing bitmap entry points.

use avm_core::avm1::{
    apply_filter, clone, compare, constructor, dispose, fill_rect, flood_fill, generate_filter_rect,
    get_pixel, get_pixel32, get_rectangle, get_transparent, height, hit_test, load_bitmap, noise,
    pixel_dissolve, scroll, set_pixel, set_pixel32, width, Avm1, Avm1Object, Bitmap, Value,
};

fn bitmap_ctx() -> (Avm1, usize) {
    let mut ctx = Avm1::new(10);
    let this = ctx.alloc_bitmap();
    let args = vec![
        Value::Int(4),
        Value::Int(3),
        Value::Bool(true),
        Value::Int(0x11223344),
    ];
    let r = constructor(&mut ctx, this, &args).unwrap();
    assert!(matches!(r, Value::Object(id) if id == this));
    (ctx, this)
}

#[test]
fn constructor_fills_and_reports_shape() {
    let (ctx, this) = bitmap_ctx();
    let no_args: Vec<Value> = Vec::new();
    assert!(matches!(width(&ctx, this, &no_args), Ok(Value::Int(4))));
    assert!(matches!(height(&ctx, this, &no_args), Ok(Value::Int(3))));
    assert!(matches!(get_transparent(&ctx, this, &no_args), Ok(Value::Bool(true))));
    let xy = vec![Value::Int(2), Value::Int(1)];
    assert!(matches!(get_pixel32(&ctx, this, &xy), Ok(Value::Int(0x11223344))));
    assert!(matches!(get_pixel(&ctx, this, &xy), Ok(Value::Int(0x223344))));
}

#[test]
fn constructor_rejects_invalid_sizes() {
    let mut ctx = Avm1::new(6);
    let this = ctx.alloc_bitmap();
    let args = vec![Value::Int(4000), Value::Int(1)];
    assert!(matches!(constructor(&mut ctx, this, &args), Ok(Value::Undefined)));
    let args = vec![Value::Int(0), Value::Int(5)];
    assert!(matches!(constructor(&mut ctx, this, &args), Ok(Value::Undefined)));
}

#[test]
fn set_pixel_keeps_alpha_and_set_pixel32_forces_it() {
    let (mut ctx, this) = bitmap_ctx();
    let put = vec![Value::Int(1), Value::Int(1), Value::Int(0x00FF00)];
    assert!(matches!(set_pixel(&mut ctx, this, &put), Ok(Value::Undefined)));
    let xy = vec![Value::Int(1), Value::Int(1)];
    // The old alpha byte 0x11 stays.
    assert!(matches!(get_pixel32(&ctx, this, &xy), Ok(Value::Int(0x1100FF00))));
    let put32 = vec![Value::Int(1), Value::Int(1), Value::Int(0x7700FF00)];
    assert!(matches!(set_pixel32(&mut ctx, this, &put32), Ok(Value::Undefined)));
    assert!(matches!(get_pixel32(&ctx, this, &xy), Ok(Value::Int(0x7700FF00))));
    // An opaque bitmap forces alpha 0xFF on a full store.
    let mut ctx2 = Avm1::new(10);
    let this2 = ctx2.alloc_bitmap();
    let args = vec![Value::Int(2), Value::Int(2), Value::Bool(false), Value::Int(0)];
    constructor(&mut ctx2, this2, &args).unwrap();
    let put2 = vec![Value::Int(0), Value::Int(0), Value::Int(0x00336699)];
    set_pixel32(&mut ctx2, this2, &put2).unwrap();
    let origin = vec![Value::Int(0), Value::Int(0)];
    assert!(matches!(
        get_pixel32(&ctx2, this2, &origin),
        Ok(Value::Int(p)) if p as u32 == 0xFF336699
    ));
}

#[test]
fn out_of_bounds_reads_are_zero_and_missing_args_answer_minus_one() {
    let (ctx, this) = bitmap_ctx();
    let far = vec![Value::Int(99), Value::Int(0)];
    assert!(matches!(get_pixel32(&ctx, this, &far), Ok(Value::Int(0))));
    let one = vec![Value::Int(0)];
    assert!(matches!(get_pixel32(&ctx, this, &one), Ok(Value::Int(-1))));
    let nobody = 77usize;
    assert!(matches!(get_pixel32(&ctx, nobody, &far), Ok(Value::Int(-1))));
}

#[test]
fn fill_rect_clips_and_fills() {
    let (mut ctx, this) = bitmap_ctx();
    let rect = ctx.objects.len();
    ctx.objects.push(Avm1Object::Rectangle { x: 1, y: 1, width: 2, height: 9 });
    let args = vec![Value::Object(rect), Value::Int(0x7F00FF00u32 as i32)];
    assert!(matches!(fill_rect(&mut ctx, this, &args), Ok(Value::Undefined)));
    let inside = vec![Value::Int(2), Value::Int(2)];
    let outside = vec![Value::Int(0), Value::Int(0)];
    assert!(matches!(
        get_pixel32(&ctx, this, &inside),
        Ok(Value::Int(p)) if p as u32 == 0x7F00FF00
    ));
    assert!(matches!(
        get_pixel32(&ctx, this, &outside),
        Ok(Value::Int(0x11223344))
    ));
}

#[test]
fn dispose_and_clone_behave() {
    let (mut ctx, this) = bitmap_ctx();
    let no_args: Vec<Value> = Vec::new();
    let copy = match clone(&mut ctx, this, &no_args) {
        Ok(Value::Object(id)) => id,
        other => panic!("clone answered {:?}", other),
    };
    assert!(matches!(width(&ctx, copy, &no_args), Ok(Value::Int(4))));
    assert!(matches!(dispose(&mut ctx, this, &no_args), Ok(Value::Undefined)));
    assert!(matches!(width(&ctx, this, &no_args), Ok(Value::Int(-1))));
    assert!(matches!(dispose(&mut ctx, this, &no_args), Ok(Value::Int(-1))));
    // The clone is unaffected.
    assert!(matches!(width(&ctx, copy, &no_args), Ok(Value::Int(4))));
}

#[test]
fn flood_fill_repaints_connected_region() {
    let mut ctx = Avm1::new(10);
    let this = ctx.alloc_bitmap();
    let args = vec![Value::Int(3), Value::Int(1), Value::Bool(false), Value::Int(0)];
    constructor(&mut ctx, this, &args).unwrap();
    // Paint the middle pixel another color to split the row.
    let put = vec![Value::Int(1), Value::Int(0), Value::Int(0x7FFFFFFFu32 as i32)];
    set_pixel32(&mut ctx, this, &put).unwrap();
    let fill = vec![Value::Int(0), Value::Int(0), Value::Int(0xFF112233u32 as i32)];
    assert!(matches!(flood_fill(&mut ctx, this, &fill), Ok(Value::Undefined)));
    let left = vec![Value::Int(0), Value::Int(0)];
    let right = vec![Value::Int(2), Value::Int(0)];
    assert!(matches!(
        get_pixel32(&ctx, this, &left),
        Ok(Value::Int(p)) if p as u32 == 0xFF112233
    ));
    // The right pixel was cut off from the start pixel, but it held the same
    // color as the start pixel's region before the wall was painted; the
    // worklist never crosses the wall, so it keeps the old color.
    assert!(matches!(
        get_pixel32(&ctx, this, &right),
        Ok(Value::Int(p)) if p as u32 == 0xFF000000
    ));
}

#[test]
fn scroll_shifts_pixels() {
    let (mut ctx, this) = bitmap_ctx();
    let put = vec![Value::Int(0), Value::Int(0), Value::Int(0x7F123456u32 as i32)];
    set_pixel32(&mut ctx, this, &put).unwrap();
    let by = vec![Value::Int(1), Value::Int(0)];
    assert!(matches!(scroll(&mut ctx, this, &by), Ok(Value::Undefined)));
    let moved = vec![Value::Int(1), Value::Int(0)];
    assert!(matches!(
        get_pixel32(&ctx, this, &moved),
        Ok(Value::Int(p)) if p as u32 == 0x7F123456
    ));
}

#[test]
fn noise_fills_channels_within_range() {
    let (mut ctx, this) = bitmap_ctx();
    let args = vec![Value::Int(42), Value::Int(10), Value::Int(20)];
    assert!(matches!(noise(&mut ctx, this, &args), Ok(Value::Undefined)));
    for x in 0..4 {
        for y in 0..3 {
            let xy = vec![Value::Int(x), Value::Int(y)];
            let p = match get_pixel32(&ctx, this, &xy) {
                Ok(Value::Int(p)) => p as u32,
                other => panic!("unexpected {:?}", other),
            };
            let r = (p >> 16) & 0xFF;
            let g = (p >> 8) & 0xFF;
            let b = p & 0xFF;
            assert!(10 <= r && r <= 20);
            assert!(10 <= g && g <= 20);
            assert!(10 <= b && b <= 20);
            assert_eq!(p >> 24, 0xFF);
        }
    }
    // The same seed gives the same pixels.
    let (mut ctx2, this2) = bitmap_ctx();
    noise(&mut ctx2, this2, &args).unwrap();
    let a = get_pixel32(&ctx, this, &vec![Value::Int(0), Value::Int(0)]);
    let b = get_pixel32(&ctx2, this2, &vec![Value::Int(0), Value::Int(0)]);
    assert!(matches!((a, b), (Ok(Value::Int(x)), Ok(Value::Int(y))) if x == y));
}

#[test]
fn compare_reports_mismatch_codes_and_differences() {
    let (mut ctx, this) = bitmap_ctx();
    let no_args: Vec<Value> = Vec::new();
    // Not a bitmap argument.
    assert!(matches!(compare(&mut ctx, this, &no_args), Ok(Value::Int(-2))));
    // Different width.
    let narrow = ctx.alloc_bitmap();
    constructor(&mut ctx, narrow, &vec![Value::Int(2), Value::Int(3)]).unwrap();
    let vs_narrow = vec![Value::Object(narrow)];
    assert!(matches!(compare(&mut ctx, this, &vs_narrow), Ok(Value::Int(-3))));
    // Equal bitmaps.
    let twin = match clone(&mut ctx, this, &no_args) {
        Ok(Value::Object(id)) => id,
        other => panic!("clone answered {:?}", other),
    };
    let vs_twin = vec![Value::Object(twin)];
    assert!(matches!(compare(&mut ctx, this, &vs_twin), Ok(Value::Int(0))));
    // One pixel different: the answer is a difference bitmap.
    set_pixel32(&mut ctx, twin, &vec![Value::Int(0), Value::Int(0), Value::Int(0x11223345)])
        .unwrap();
    let diff = match compare(&mut ctx, this, &vs_twin) {
        Ok(Value::Object(id)) => id,
        other => panic!("compare answered {:?}", other),
    };
    let origin = vec![Value::Int(0), Value::Int(0)];
    assert!(matches!(
        get_pixel32(&ctx, diff, &origin),
        Ok(Value::Int(p)) if p as u32 == 0xFFFFFFFF
    ));
    let elsewhere = vec![Value::Int(1), Value::Int(0)];
    assert!(matches!(get_pixel32(&ctx, diff, &elsewhere), Ok(Value::Int(0))));
    // Disposed receiver answers -1.
    dispose(&mut ctx, this, &no_args).unwrap();
    assert!(matches!(compare(&mut ctx, this, &vs_twin), Ok(Value::Int(-1))));
}

#[test]
fn stubs_answer_by_receiver_state() {
    let (mut ctx, this) = bitmap_ctx();
    let no_args: Vec<Value> = Vec::new();
    assert!(matches!(apply_filter(&ctx, this, &no_args), Ok(Value::Int(-1))));
    assert!(matches!(generate_filter_rect(&ctx, this, &no_args), Ok(Value::Undefined)));
    assert!(matches!(hit_test(&ctx, this, &no_args), Ok(Value::Undefined)));
    assert!(matches!(pixel_dissolve(&ctx, this, &no_args), Ok(Value::Undefined)));
    dispose(&mut ctx, this, &no_args).unwrap();
    assert!(matches!(generate_filter_rect(&ctx, this, &no_args), Ok(Value::Int(-1))));
    assert!(matches!(hit_test(&ctx, this, &no_args), Ok(Value::Int(-1))));
    assert!(matches!(pixel_dissolve(&ctx, this, &no_args), Ok(Value::Int(-1))));
}

#[test]
fn get_rectangle_covers_the_bitmap() {
    let (mut ctx, this) = bitmap_ctx();
    let no_args: Vec<Value> = Vec::new();
    let rect = match get_rectangle(&mut ctx, this, &no_args) {
        Ok(Value::Object(id)) => id,
        other => panic!("rectangle answered {:?}", other),
    };
    match &ctx.objects[rect] {
        Avm1Object::Rectangle { x, y, width, height } => {
            assert_eq!((*x, *y, *width, *height), (0, 0, 4, 3));
        },
        _ => panic!("expected a rectangle object"),
    }
}

#[test]
fn load_bitmap_looks_up_the_library() {
    let mut ctx = Avm1::new(10);
    ctx.add_library_bitmap(
        b"logo".to_vec(),
        Bitmap { width: 2, height: 1, pixels: vec![0xFF0000FF, 0xFF00FF00] },
    );
    let miss = load_bitmap(&mut ctx, 0, &vec![Value::Str(b"other".to_vec())]).unwrap();
    assert!(matches!(miss, Value::Undefined));
    let hit = match load_bitmap(&mut ctx, 0, &vec![Value::Str(b"logo".to_vec())]) {
        Ok(Value::Object(id)) => id,
        other => panic!("load answered {:?}", other),
    };
    let no_args: Vec<Value> = Vec::new();
    assert!(matches!(width(&ctx, hit, &no_args), Ok(Value::Int(2))));
    assert!(matches!(get_transparent(&ctx, hit, &no_args), Ok(Value::Bool(true))));
    let origin = vec![Value::Int(0), Value::Int(0)];
    assert!(matches!(
        get_pixel32(&ctx, hit, &origin),
        Ok(Value::Int(p)) if p as u32 == 0xFF0000FF
    ));
}
