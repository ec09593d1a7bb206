//! The script-facing bitmap entry points: argument coercion, dispatch on the
//! receiver, and the disposed check, in front of [`crate::bitmap::BitmapData`].
//!
//! A script value is a plain tagged value; numbers arrive as integers. An
//! object is an index into the context's object arena. A call on a receiver
//! that is not a bitmap, or on a disposed bitmap, answers -1 rather than
//! failing.

use crate::bitmap::BitmapData;
use vstd::prelude::*;

verus! {

/// A script value handed to or returned from an entry point.
#[derive(Clone, Debug)]
pub enum Value {
    Undefined,
    Null,
    Bool(bool),
    Int(i32),
    Str(Vec<u8>),
    Object(usize),
}

/// An error thrown back to the evaluator; these entry points never throw.
#[derive(Clone, Copy, PartialEq, Eq, Structural, Debug)]
pub enum Error {
    Thrown,
}

/// One object in the script-side arena.
#[derive(Clone, Debug)]
pub enum Avm1Object {
    /// A bitmap receiver.
    BitmapData(BitmapData),
    /// A rectangle argument or result.
    Rectangle { x: i32, y: i32, width: i32, height: i32 },
    /// Anything else.
    Plain,
}

/// A bitmap character in the export library, looked up by `load_bitmap`.
#[derive(Clone, Debug)]
pub struct Bitmap {
    pub width: u16,
    pub height: u16,
    pub pixels: Vec<u32>,
}

/// The script execution context: the object arena, the export library and
/// the archive version argument coercion depends on.
#[derive(Clone, Debug)]
pub struct Avm1 {
    pub objects: Vec<Avm1Object>,
    pub library: Vec<(Vec<u8>, Bitmap)>,
    pub swf_version: u8,
}

/// What a value coerces to as a signed integer: integers stand for
/// themselves, true is 1, and everything else is 0.
pub open spec fn spec_to_i32(v: Value) -> i32 {
    match v {
        Value::Int(i) => i,
        Value::Bool(b) => if b {
            1i32
        } else {
            0i32
        },
        _ => 0i32,
    }
}

/// Argument `i`, coerced to an integer; a missing argument takes the default.
pub open spec fn spec_arg_i32(args: Seq<Value>, i: int, default: i32) -> i32 {
    if 0 <= i < args.len() {
        spec_to_i32(args[i])
    } else {
        default
    }
}

/// Whether a value counts as true: booleans and integers by value, a string
/// by being nonempty, an object always.
pub open spec fn spec_truthy(v: Value) -> bool {
    match v {
        Value::Bool(b) => b,
        Value::Int(i) => i != 0,
        Value::Str(s) => s@.len() > 0,
        Value::Object(_) => true,
        _ => false,
    }
}

/// Argument `i` as a condition; a missing argument takes the default.
pub open spec fn spec_arg_bool(args: Seq<Value>, i: int, default: bool) -> bool {
    if 0 <= i < args.len() {
        spec_truthy(args[i])
    } else {
        default
    }
}

fn to_i32(v: &Value) -> (r: i32)
    ensures
        r == spec_to_i32(*v),
{
    match v {
        Value::Int(i) => *i,
        Value::Bool(b) => if *b {
            1
        } else {
            0
        },
        _ => 0,
    }
}

fn arg_i32(args: &Vec<Value>, i: usize, default: i32) -> (r: i32)
    ensures
        r == spec_arg_i32(args@, i as int, default),
{
    if i < args.len() {
        to_i32(&args[i])
    } else {
        default
    }
}

fn arg_bool(args: &Vec<Value>, i: usize, default: bool) -> (r: bool)
    ensures
        r == spec_arg_bool(args@, i as int, default),
{
    if i < args.len() {
        match &args[i] {
            Value::Bool(b) => *b,
            Value::Int(v) => *v != 0,
            Value::Str(s) => s.len() > 0,
            Value::Object(_) => true,
            _ => false,
        }
    } else {
        default
    }
}

/// Whether a bitmap of this size may be created, by archive version: early
/// versions allow up to 2880 pixels a side; later ones allow 8191 a side and
/// cap the pixel count.
pub open spec fn spec_size_valid(swf_version: u8, width: u32, height: u32) -> bool {
    &&& width > 0
    &&& height > 0
    &&& if swf_version <= 9 {
        width <= 2880 && height <= 2880
    } else {
        width <= 8191 && height <= 8191 && width as int * height as int <= 16_777_215
    }
}

/// Decide whether a bitmap of this size may be created.
pub fn is_size_valid(swf_version: u8, width: u32, height: u32) -> (r: bool)
    ensures
        r == spec_size_valid(swf_version, width, height),
{
    if width == 0 || height == 0 {
        return false;
    }
    if swf_version <= 9 {
        width <= 2880 && height <= 2880
    } else {
        if width <= 8191 && height <= 8191 {
            proof {
                assert(width as int * height as int <= 8191 * 8191) by (nonlinear_arith)
                    requires
                        width <= 8191,
                        height <= 8191,
                ;
            }
            (width as u64) * (height as u64) <= 16_777_215
        } else {
            false
        }
    }
}

/// A fill color with its color channels scaled by its alpha, as stored on a
/// transparent bitmap; an opaque bitmap keeps the color.
pub open spec fn spec_premultiply(c: u32, transparency: bool) -> u32 {
    if !transparency {
        c
    } else {
        let a = c >> 24;
        let r = ((((c >> 16) & 0xFF) * a) / 255) as u32;
        let g = ((((c >> 8) & 0xFF) * a) / 255) as u32;
        let b = (((c & 0xFF) * a) / 255) as u32;
        (a << 24) | (r << 16) | (g << 8) | b
    }
}

fn premultiply(c: u32, transparency: bool) -> (r: u32)
    ensures
        r == spec_premultiply(c, transparency),
{
    if !transparency {
        c
    } else {
        let a = c >> 24;
        let rc = (c >> 16) & 0xFF;
        let gc = (c >> 8) & 0xFF;
        let bc = c & 0xFF;
        proof {
            assert(c >> 24 <= 0xFF) by (bit_vector);
            assert((c >> 16) & 0xFF <= 0xFF) by (bit_vector);
            assert((c >> 8) & 0xFF <= 0xFF) by (bit_vector);
            assert(c & 0xFF <= 0xFF) by (bit_vector);
            assert(rc * a <= 65025) by (nonlinear_arith)
                requires
                    rc <= 255,
                    a <= 255,
            ;
            assert(gc * a <= 65025) by (nonlinear_arith)
                requires
                    gc <= 255,
                    a <= 255,
            ;
            assert(bc * a <= 65025) by (nonlinear_arith)
                requires
                    bc <= 255,
                    a <= 255,
            ;
        }
        let r = (rc * a) / 255;
        let g = (gc * a) / 255;
        let b = (bc * a) / 255;
        (a << 24) | (r << 16) | (g << 8) | b
    }
}

impl Avm1 {
    /// Every bitmap in the arena is well formed and fits the size limits, and
    /// every library character holds one pixel per coordinate.
    pub open spec fn wf(&self) -> bool {
        &&& (forall|i: int|
            0 <= i < self.objects@.len() ==> match #[trigger] self.objects@[i] {
                Avm1Object::BitmapData(b) => b.wf() && b.width < 0x8000_0000 && b.height
                    < 0x8000_0000,
                _ => true,
            })
        &&& (forall|i: int|
            0 <= i < self.library@.len() ==> (#[trigger] self.library@[i]).1.pixels@.len() == (
            self.library@[i]).1.width as int * (self.library@[i]).1.height as int)
    }

    /// A fresh context with no objects and an empty library.
    pub fn new(swf_version: u8) -> (r: Avm1)
        ensures
            r.wf(),
            r.objects@.len() == 0,
            r.library@.len() == 0,
            r.swf_version == swf_version,
    {
        Avm1 { objects: Vec::new(), library: Vec::new(), swf_version }
    }

    /// Allocate a fresh, empty bitmap object and return its arena index.
    pub fn alloc_bitmap(&mut self) -> (r: usize)
        requires
            old(self).wf(),
        ensures
            final(self).wf(),
            r == old(self).objects@.len(),
            final(self).objects@.len() == old(self).objects@.len() + 1,
            forall|i: int|
                0 <= i < old(self).objects@.len() ==> final(self).objects@[i] == old(
                    self,
                ).objects@[i],
            final(self).objects@[r as int] matches Avm1Object::BitmapData(b) && b.width == 0
                && b.height == 0 && !b.disposed,
            final(self).library@ == old(self).library@,
            final(self).swf_version == old(self).swf_version,
    {
        let r = self.objects.len();
        self.objects.push(Avm1Object::BitmapData(BitmapData::new()));
        r
    }

    /// Add a bitmap character to the export library under a name.
    pub fn add_library_bitmap(&mut self, name: Vec<u8>, bitmap: Bitmap)
        requires
            old(self).wf(),
            bitmap.pixels@.len() == bitmap.width as int * bitmap.height as int,
        ensures
            final(self).wf(),
            final(self).library@.len() == old(self).library@.len() + 1,
            final(self).objects@ == old(self).objects@,
            final(self).swf_version == old(self).swf_version,
    {
        self.library.push((name, bitmap));
    }

    /// Whether an object index refers to a live (present) bitmap.
    pub open spec fn is_bitmap(&self, this: int) -> bool {
        0 <= this < self.objects@.len() && self.objects@[this] is BitmapData
    }

    /// The bitmap behind an object index.
    pub open spec fn bitmap(&self, this: int) -> BitmapData {
        self.objects@[this]->BitmapData_0
    }

    /// A live, undisposed bitmap receiver.
    pub open spec fn live_bitmap(&self, this: int) -> bool {
        self.is_bitmap(this) && !self.bitmap(this).disposed
    }
}

/// Read the bitmap receiver, if the object is a live bitmap.
fn bitmap_ref<'a>(activation: &'a Avm1, this: usize) -> (r: Option<&'a BitmapData>)
    ensures
        match r {
            Some(b) => activation.is_bitmap(this as int) && *b == activation.bitmap(this as int),
            None => !activation.is_bitmap(this as int),
        },
{
    if this < activation.objects.len() {
        match &activation.objects[this] {
            Avm1Object::BitmapData(b) => Some(b),
            _ => None,
        }
    } else {
        None
    }
}

/// Initialize a bitmap receiver from the constructor arguments: width,
/// height, transparency and fill color. An invalid size leaves the receiver
/// untouched and answers undefined; otherwise the receiver's pixels are
/// filled and the receiver itself is answered.
pub fn constructor(activation: &mut Avm1, this: usize, args: &Vec<Value>) -> (r: Result<
    Value,
    Error,
>)
    requires
        old(activation).wf(),
    ensures
        final(activation).wf(),
        ({
            let w = spec_arg_i32(args@, 0, 0i32) as u32;
            let h = spec_arg_i32(args@, 1, 0i32) as u32;
            let transparency = spec_arg_bool(args@, 2, true);
            let fill = spec_arg_i32(args@, 3, -1i32);
            if !spec_size_valid(old(activation).swf_version, w, h) {
                r == Ok::<Value, Error>(Value::Undefined) && *final(activation) == *old(activation)
            } else {
                &&& r == Ok::<Value, Error>(Value::Object(this))
                &&& (old(activation).is_bitmap(this as int) ==> {
                    let b = final(activation).bitmap(this as int);
                    &&& final(activation).is_bitmap(this as int)
                    &&& b.width == w
                    &&& b.height == h
                    &&& b.transparency == transparency
                    &&& (forall|i: int|
                        0 <= i < b.pixels@.len() ==> b.pixels@[i]
                            == crate::bitmap::stored_pixel(transparency, fill as u32))
                })
                &&& (!old(activation).is_bitmap(this as int) ==> *final(activation) == *old(activation))
            }
        }),
{
    let width = arg_i32(args, 0, 0) as u32;
    let height = arg_i32(args, 1, 0) as u32;
    let transparency = arg_bool(args, 2, true);
    let fill_color = arg_i32(args, 3, -1);
    if !is_size_valid(activation.swf_version, width, height) {
        return Ok(Value::Undefined);
    }
    proof {
        assert(width as int * height as int <= 8191 * 8191) by (nonlinear_arith)
            requires
                width <= 8191,
                height <= 8191,
        ;
    }
    if this < activation.objects.len() {
        let is_bm = match &activation.objects[this] {
            Avm1Object::BitmapData(_) => true,
            _ => false,
        };
        if is_bm {
            let bref = &mut activation.objects[this];
            match bref {
                Avm1Object::BitmapData(b) => {
                    b.init_pixels(width, height, transparency, fill_color);
                },
                _ => {},
            }
        }
    }
    Ok(Value::Object(this))
}

/// The bitmap's height, or -1 for a missing or disposed receiver.
pub fn height(activation: &Avm1, this: usize, args: &Vec<Value>) -> (r: Result<Value, Error>)
    ensures
        r == Ok::<Value, Error>(
            if activation.live_bitmap(this as int) {
                Value::Int(activation.bitmap(this as int).height as i32)
            } else {
                Value::Int(-1i32)
            },
        ),
{
    match bitmap_ref(activation, this) {
        Some(b) => {
            if !b.disposed() {
                return Ok(Value::Int(b.height() as i32));
            }
            Ok(Value::Int(-1i32))
        },
        None => Ok(Value::Int(-1i32)),
    }
}

/// The bitmap's width, or -1 for a missing or disposed receiver.
pub fn width(activation: &Avm1, this: usize, args: &Vec<Value>) -> (r: Result<Value, Error>)
    ensures
        r == Ok::<Value, Error>(
            if activation.live_bitmap(this as int) {
                Value::Int(activation.bitmap(this as int).width as i32)
            } else {
                Value::Int(-1i32)
            },
        ),
{
    match bitmap_ref(activation, this) {
        Some(b) => {
            if !b.disposed() {
                return Ok(Value::Int(b.width() as i32));
            }
            Ok(Value::Int(-1i32))
        },
        None => Ok(Value::Int(-1i32)),
    }
}

/// The bitmap's transparency flag, or -1 for a missing or disposed receiver.
pub fn get_transparent(activation: &Avm1, this: usize, args: &Vec<Value>) -> (r: Result<
    Value,
    Error,
>)
    ensures
        r == Ok::<Value, Error>(
            if activation.live_bitmap(this as int) {
                Value::Bool(activation.bitmap(this as int).transparency)
            } else {
                Value::Int(-1i32)
            },
        ),
{
    match bitmap_ref(activation, this) {
        Some(b) => {
            if !b.disposed() {
                return Ok(Value::Bool(b.transparency()));
            }
            Ok(Value::Int(-1i32))
        },
        None => Ok(Value::Int(-1i32)),
    }
}

/// A fresh rectangle object covering the bitmap, or -1 for a missing or
/// disposed receiver.
pub fn get_rectangle(activation: &mut Avm1, this: usize, args: &Vec<Value>) -> (r: Result<
    Value,
    Error,
>)
    requires
        old(activation).wf(),
    ensures
        final(activation).wf(),
        if old(activation).live_bitmap(this as int) {
            let b = old(activation).bitmap(this as int);
            &&& r == Ok::<Value, Error>(Value::Object(old(activation).objects@.len() as usize))
            &&& final(activation).objects@.len() == old(activation).objects@.len() + 1
            &&& (forall|i: int|
                0 <= i < old(activation).objects@.len() ==> final(activation).objects@[i] == old(activation).objects@[i])
            &&& final(activation).objects@.last() == (Avm1Object::Rectangle {
                x: 0i32,
                y: 0i32,
                width: b.width as i32,
                height: b.height as i32,
            })
        } else {
            r == Ok::<Value, Error>(Value::Int(-1i32)) && *final(activation) == *old(activation)
        },
{
    let live = match bitmap_ref(activation, this) {
        Some(b) => !b.disposed(),
        None => false,
    };
    if !live {
        return Ok(Value::Int(-1i32));
    }
    let (w, h) = match &activation.objects[this] {
        Avm1Object::BitmapData(b) => (b.width(), b.height()),
        _ => (0, 0),
    };
    let id = activation.objects.len();
    activation.objects.push(
        Avm1Object::Rectangle { x: 0, y: 0, width: w as i32, height: h as i32 },
    );
    Ok(Value::Object(id))
}

/// The color bytes of a pixel, or -1 for a missing receiver, a disposed
/// receiver or missing coordinates.
pub fn get_pixel(activation: &Avm1, this: usize, args: &Vec<Value>) -> (r: Result<Value, Error>)
    requires
        activation.wf(),
    ensures
        r == Ok::<Value, Error>(
            if activation.live_bitmap(this as int) && args@.len() >= 2 {
                Value::Int(
                    if activation.bitmap(this as int).in_bounds(
                        spec_to_i32(args@[0]) as int,
                        spec_to_i32(args@[1]) as int,
                    ) {
                        (activation.bitmap(this as int).pixel_at(
                            spec_to_i32(args@[0]) as int,
                            spec_to_i32(args@[1]) as int,
                        ) & 0x00FF_FFFF) as i32
                    } else {
                        0i32
                    },
                )
            } else {
                Value::Int(-1i32)
            },
        ),
{
    match bitmap_ref(activation, this) {
        Some(b) => {
            if !b.disposed() && args.len() >= 2 {
                let x = to_i32(&args[0]);
                let y = to_i32(&args[1]);
                return Ok(Value::Int(b.get_pixel(x, y)));
            }
            Ok(Value::Int(-1i32))
        },
        None => Ok(Value::Int(-1i32)),
    }
}

/// The full pixel at a coordinate, or -1 for a missing receiver, a disposed
/// receiver or missing coordinates.
pub fn get_pixel32(activation: &Avm1, this: usize, args: &Vec<Value>) -> (r: Result<Value, Error>)
    requires
        activation.wf(),
    ensures
        r == Ok::<Value, Error>(
            if activation.live_bitmap(this as int) && args@.len() >= 2 {
                Value::Int(
                    if activation.bitmap(this as int).in_bounds(
                        spec_to_i32(args@[0]) as int,
                        spec_to_i32(args@[1]) as int,
                    ) {
                        activation.bitmap(this as int).pixel_at(
                            spec_to_i32(args@[0]) as int,
                            spec_to_i32(args@[1]) as int,
                        ) as i32
                    } else {
                        0i32
                    },
                )
            } else {
                Value::Int(-1i32)
            },
        ),
{
    match bitmap_ref(activation, this) {
        Some(b) => {
            if !b.disposed() && args.len() >= 2 {
                let x = to_i32(&args[0]);
                let y = to_i32(&args[1]);
                return Ok(Value::Int(b.get_pixel32(x, y)));
            }
            Ok(Value::Int(-1i32))
        },
        None => Ok(Value::Int(-1i32)),
    }
}

/// Store the color bytes of a pixel, keeping its alpha. Missing arguments
/// answer -1 with nothing changed; a live receiver answers undefined.
pub fn set_pixel(activation: &mut Avm1, this: usize, args: &Vec<Value>) -> (r: Result<Value, Error>)
    requires
        old(activation).wf(),
    ensures
        final(activation).wf(),
        if old(activation).live_bitmap(this as int) && args@.len() >= 3 {
            let b0 = old(activation).bitmap(this as int);
            let x = spec_to_i32(args@[0]) as u32;
            let y = spec_to_i32(args@[1]) as u32;
            let color = spec_to_i32(args@[2]) as u32;
            &&& r == Ok::<Value, Error>(Value::Undefined)
            &&& final(activation).is_bitmap(this as int)
            &&& (forall|i: int|
                0 <= i < old(activation).objects@.len() && i != this as int ==> final(activation).objects@[i] == old(activation).objects@[i])
            &&& final(activation).objects@.len() == old(activation).objects@.len()
            &&& ({
                let b1 = final(activation).bitmap(this as int);
                &&& b1 == (BitmapData { pixels: b1.pixels, ..b0 })
                &&& (b0.in_bounds(x as int, y as int) ==> b1.pixels@ == b0.pixels@.update(
                    b0.idx(x as int, y as int),
                    (b0.pixel_at(x as int, y as int) & 0xFF00_0000) | (color & 0x00FF_FFFF),
                ))
                &&& (!b0.in_bounds(x as int, y as int) ==> b1.pixels@ == b0.pixels@)
            })
        } else {
            *final(activation) == *old(activation) && r == Ok::<Value, Error>(
                if old(activation).live_bitmap(this as int) {
                    Value::Int(-1i32)
                } else {
                    Value::Int(-1i32)
                },
            )
        },
{
    let live = match bitmap_ref(activation, this) {
        Some(b) => !b.disposed(),
        None => false,
    };
    if live && args.len() >= 3 {
        let x = to_i32(&args[0]) as u32;
        let y = to_i32(&args[1]) as u32;
        let color = to_i32(&args[2]) as u32;
        let bref = &mut activation.objects[this];
        match bref {
            Avm1Object::BitmapData(b) => {
                b.set_pixel(x, y, color);
            },
            _ => {},
        }
        return Ok(Value::Undefined);
    }
    Ok(Value::Int(-1i32))
}

/// Store a full pixel. A live receiver answers undefined whether or not the
/// coordinates were supplied; anything else answers -1.
pub fn set_pixel32(activation: &mut Avm1, this: usize, args: &Vec<Value>) -> (r: Result<
    Value,
    Error,
>)
    requires
        old(activation).wf(),
    ensures
        final(activation).wf(),
        if old(activation).live_bitmap(this as int) {
            let b0 = old(activation).bitmap(this as int);
            let x = spec_to_i32(args@[0]);
            let y = spec_to_i32(args@[1]);
            let color = spec_to_i32(args@[2]) as u32;
            &&& r == Ok::<Value, Error>(Value::Undefined)
            &&& final(activation).is_bitmap(this as int)
            &&& (forall|i: int|
                0 <= i < old(activation).objects@.len() && i != this as int ==> final(activation).objects@[i] == old(activation).objects@[i])
            &&& final(activation).objects@.len() == old(activation).objects@.len()
            &&& (args@.len() >= 3 ==> ({
                let b1 = final(activation).bitmap(this as int);
                &&& b1 == (BitmapData { pixels: b1.pixels, ..b0 })
                &&& (b0.in_bounds(x as int, y as int) ==> b1.pixels@ == b0.pixels@.update(
                    b0.idx(x as int, y as int),
                    crate::bitmap::stored_pixel(b0.transparency, color),
                ))
                &&& (!b0.in_bounds(x as int, y as int) ==> b1.pixels@ == b0.pixels@)
            }))
            &&& (args@.len() < 3 ==> *final(activation) == *old(activation))
        } else {
            *final(activation) == *old(activation) && r == Ok::<Value, Error>(Value::Int(-1i32))
        },
{
    let live = match bitmap_ref(activation, this) {
        Some(b) => !b.disposed(),
        None => false,
    };
    if live {
        if args.len() >= 3 {
            let x = to_i32(&args[0]);
            let y = to_i32(&args[1]);
            let color = to_i32(&args[2]) as u32;
            let bref = &mut activation.objects[this];
            match bref {
                Avm1Object::BitmapData(b) => {
                    b.set_pixel32(x, y, color);
                },
                _ => {},
            }
        }
        return Ok(Value::Undefined);
    }
    Ok(Value::Int(-1i32))
}

/// Fill the rectangle given by a rectangle object with a color. A missing
/// color argument leaves the bitmap untouched; a live receiver answers
/// undefined.
pub fn fill_rect(activation: &mut Avm1, this: usize, args: &Vec<Value>) -> (r: Result<Value, Error>)
    requires
        old(activation).wf(),
    ensures
        final(activation).wf(),
        if old(activation).live_bitmap(this as int) {
            &&& r == Ok::<Value, Error>(Value::Undefined)
            &&& final(activation).is_bitmap(this as int)
            &&& final(activation).objects@.len() == old(activation).objects@.len()
            &&& (forall|i: int|
                0 <= i < old(activation).objects@.len() && i != this as int ==> final(activation).objects@[i] == old(activation).objects@[i])
            &&& (args@.len() < 2 ==> *final(activation) == *old(activation))
            &&& ({
                let b0 = old(activation).bitmap(this as int);
                let b1 = final(activation).bitmap(this as int);
                args@.len() >= 2 ==> ({
                    let rect = rect_of(*old(activation), args@[0]);
                    let color = spec_to_i32(args@[1]) as u32;
                    &&& b1 == (BitmapData { pixels: b1.pixels, ..b0 })
                    &&& (forall|px: int, py: int|
                        b0.in_bounds(px, py) ==> b1.pixel_at(px, py) == (
                        if crate::bitmap::in_rect(
                            px,
                            py,
                            (rect.0 as u32) as int,
                            (rect.1 as u32) as int,
                            (rect.2 as u32) as int,
                            (rect.3 as u32) as int,
                        ) {
                            crate::bitmap::stored_pixel(b0.transparency, color)
                        } else {
                            b0.pixel_at(px, py)
                        }))
                })
            })
        } else {
            *final(activation) == *old(activation) && r == Ok::<Value, Error>(Value::Int(-1i32))
        },
{
    let live = match bitmap_ref(activation, this) {
        Some(b) => !b.disposed(),
        None => false,
    };
    if !live {
        return Ok(Value::Int(-1i32));
    }
    if args.len() < 2 {
        return Ok(Value::Undefined);
    }
    let (rx, ry, rw, rh) = read_rect(activation, &args[0]);
    let color = to_i32(&args[1]) as u32;
    let bref = &mut activation.objects[this];
    match bref {
        Avm1Object::BitmapData(b) => {
            b.fill_rect(rx as u32, ry as u32, rw as u32, rh as u32, color);
        },
        _ => {},
    }
    Ok(Value::Undefined)
}

/// The rectangle fields a value stands for: a rectangle object's fields, or
/// zeros for anything else.
pub open spec fn rect_of(ctx: Avm1, v: Value) -> (i32, i32, i32, i32) {
    match v {
        Value::Object(id) => if 0 <= id < ctx.objects@.len() {
            match ctx.objects@[id as int] {
                Avm1Object::Rectangle { x, y, width, height } => (x, y, width, height),
                _ => (0i32, 0i32, 0i32, 0i32),
            }
        } else {
            (0i32, 0i32, 0i32, 0i32)
        },
        _ => (0i32, 0i32, 0i32, 0i32),
    }
}

fn read_rect(activation: &Avm1, v: &Value) -> (r: (i32, i32, i32, i32))
    ensures
        r == rect_of(*activation, *v),
{
    match v {
        Value::Object(id) => {
            if *id < activation.objects.len() {
                match &activation.objects[*id] {
                    Avm1Object::Rectangle { x, y, width, height } => (*x, *y, *width, *height),
                    _ => (0, 0, 0, 0),
                }
            } else {
                (0, 0, 0, 0)
            }
        },
        _ => (0, 0, 0, 0),
    }
}

/// A fresh bitmap object holding a copy of the receiver's pixels, or -1 for
/// a missing or disposed receiver.
pub fn clone(activation: &mut Avm1, this: usize, args: &Vec<Value>) -> (r: Result<Value, Error>)
    requires
        old(activation).wf(),
    ensures
        final(activation).wf(),
        if old(activation).live_bitmap(this as int) {
            let b0 = old(activation).bitmap(this as int);
            &&& r == Ok::<Value, Error>(Value::Object(old(activation).objects@.len() as usize))
            &&& final(activation).objects@.len() == old(activation).objects@.len() + 1
            &&& (forall|i: int|
                0 <= i < old(activation).objects@.len() ==> final(activation).objects@[i] == old(activation).objects@[i])
            &&& (final(activation).objects@.last() matches Avm1Object::BitmapData(b1) && b1.width
                == b0.width && b1.height == b0.height && b1.transparency == b0.transparency
                && b1.pixels@ == b0.pixels@ && !b1.disposed)
        } else {
            *final(activation) == *old(activation) && r == Ok::<Value, Error>(Value::Int(-1i32))
        },
{
    let live = match bitmap_ref(activation, this) {
        Some(b) => !b.disposed(),
        None => false,
    };
    if !live {
        return Ok(Value::Int(-1i32));
    }
    let copied = match &activation.objects[this] {
        Avm1Object::BitmapData(b) => BitmapData {
            width: b.width,
            height: b.height,
            transparency: b.transparency,
            pixels: crate::context::copy_vec(&b.pixels),
            disposed: false,
        },
        _ => BitmapData::new(),
    };
    let id = activation.objects.len();
    activation.objects.push(Avm1Object::BitmapData(copied));
    Ok(Value::Object(id))
}

/// Drop the receiver's pixels and mark it disposed; answers undefined for a
/// live receiver and -1 otherwise.
pub fn dispose(activation: &mut Avm1, this: usize, args: &Vec<Value>) -> (r: Result<Value, Error>)
    requires
        old(activation).wf(),
    ensures
        final(activation).wf(),
        if old(activation).live_bitmap(this as int) {
            &&& r == Ok::<Value, Error>(Value::Undefined)
            &&& final(activation).objects@.len() == old(activation).objects@.len()
            &&& (forall|i: int|
                0 <= i < old(activation).objects@.len() && i != this as int ==> final(activation).objects@[i] == old(activation).objects@[i])
            &&& (final(activation).objects@[this as int] matches Avm1Object::BitmapData(b)
                && b.disposed && b.width == 0 && b.height == 0 && b.pixels@.len() == 0)
        } else {
            *final(activation) == *old(activation) && r == Ok::<Value, Error>(Value::Int(-1i32))
        },
{
    let live = match bitmap_ref(activation, this) {
        Some(b) => !b.disposed(),
        None => false,
    };
    if !live {
        return Ok(Value::Int(-1i32));
    }
    let bref = &mut activation.objects[this];
    match bref {
        Avm1Object::BitmapData(b) => {
            b.dispose();
        },
        _ => {},
    }
    Ok(Value::Undefined)
}

/// Flood-fill from a coordinate with a premultiplied fill color; a live
/// receiver answers undefined.
pub fn flood_fill(activation: &mut Avm1, this: usize, args: &Vec<Value>) -> (r: Result<
    Value,
    Error,
>)
    requires
        old(activation).wf(),
    ensures
        final(activation).wf(),
        if old(activation).live_bitmap(this as int) {
            &&& r == Ok::<Value, Error>(Value::Undefined)
            &&& final(activation).objects@.len() == old(activation).objects@.len()
            &&& (forall|i: int|
                0 <= i < old(activation).objects@.len() && i != this as int ==> final(activation).objects@[i] == old(activation).objects@[i])
            &&& (args@.len() < 3 ==> *final(activation) == *old(activation))
            &&& (args@.len() >= 3 ==> ({
                let b0 = old(activation).bitmap(this as int);
                let b1 = final(activation).bitmap(this as int);
                let fill = spec_premultiply(spec_to_i32(args@[2]) as u32, b0.transparency);
                let x = spec_to_i32(args@[0]) as u32;
                let y = spec_to_i32(args@[1]) as u32;
                &&& final(activation).is_bitmap(this as int)
                &&& b1 == (BitmapData { pixels: b1.pixels, ..b0 })
                &&& (forall|i: int|
                    0 <= i < b1.pixels@.len() ==> b1.pixels@[i] == b0.pixels@[i] || (b0.pixels@[i]
                        == b0.pixel_at(x as int, y as int) && b1.pixels@[i] == fill))
                &&& (b0.in_bounds(x as int, y as int) && b0.pixel_at(x as int, y as int) != fill
                    ==> b1.pixel_at(x as int, y as int) == fill)
            }))
        } else {
            *final(activation) == *old(activation) && r == Ok::<Value, Error>(Value::Int(-1i32))
        },
{
    let live = match bitmap_ref(activation, this) {
        Some(b) => !b.disposed(),
        None => false,
    };
    if !live {
        return Ok(Value::Int(-1i32));
    }
    if args.len() >= 3 {
        let x = to_i32(&args[0]) as u32;
        let y = to_i32(&args[1]) as u32;
        let color = to_i32(&args[2]) as u32;
        let transparency = match &activation.objects[this] {
            Avm1Object::BitmapData(b) => b.transparency(),
            _ => true,
        };
        let fill = premultiply(color, transparency);
        let bref = &mut activation.objects[this];
        match bref {
            Avm1Object::BitmapData(b) => {
                b.flood_fill(x, y, fill);
            },
            _ => {},
        }
    }
    Ok(Value::Undefined)
}

/// Fill the bitmap with generator noise; a live receiver answers undefined,
/// and nothing happens without a seed argument.
pub fn noise(activation: &mut Avm1, this: usize, args: &Vec<Value>) -> (r: Result<Value, Error>)
    requires
        old(activation).wf(),
    ensures
        final(activation).wf(),
        if old(activation).live_bitmap(this as int) {
            &&& r == Ok::<Value, Error>(Value::Undefined)
            &&& final(activation).objects@.len() == old(activation).objects@.len()
            &&& (forall|i: int|
                0 <= i < old(activation).objects@.len() && i != this as int ==> final(activation).objects@[i] == old(activation).objects@[i])
            &&& (args@.len() < 1 ==> *final(activation) == *old(activation))
            &&& (args@.len() >= 1 ==> ({
                let b0 = old(activation).bitmap(this as int);
                let b1 = final(activation).bitmap(this as int);
                let seed = spec_to_i32(args@[0]);
                let low = spec_arg_i32(args@, 1, 0i32) as u32 as u8;
                let high0 = spec_arg_i32(args@, 2, 0xFFi32) as u32 as u8;
                let high = if high0 < low {
                    low
                } else {
                    high0
                };
                let opts = if args@.len() > 3 {
                    spec_to_i32(args@[3]) as u32 as u8
                } else {
                    7u8
                };
                let gray = spec_arg_bool(args@, 4, false);
                &&& final(activation).is_bitmap(this as int)
                &&& b1 == (BitmapData { pixels: b1.pixels, ..b0 })
                &&& b1.pixels@.len() == b0.pixels@.len()
                &&& (forall|i: int|
                    0 <= i < b1.pixels@.len() ==> b1.pixels@[i] == crate::bitmap::noise_pixel(
                        crate::bitmap::noise_state(seed, i),
                        low,
                        high,
                        opts,
                        gray,
                    ))
            }))
        } else {
            *final(activation) == *old(activation) && r == Ok::<Value, Error>(Value::Int(-1i32))
        },
{
    let live = match bitmap_ref(activation, this) {
        Some(b) => !b.disposed(),
        None => false,
    };
    if !live {
        return Ok(Value::Int(-1i32));
    }
    if args.len() >= 1 {
        let seed = to_i32(&args[0]);
        let low = (arg_i32(args, 1, 0) as u32) as u8;
        let high0 = (arg_i32(args, 2, 0xFF) as u32) as u8;
        let high = if high0 < low {
            low
        } else {
            high0
        };
        let opts: u8 = if args.len() > 3 {
            (to_i32(&args[3]) as u32) as u8
        } else {
            7
        };
        let gray = arg_bool(args, 4, false);
        let bref = &mut activation.objects[this];
        match bref {
            Avm1Object::BitmapData(b) => {
                b.noise(seed, low, high, opts, gray);
            },
            _ => {},
        }
    }
    Ok(Value::Undefined)
}

/// Shift the bitmap's pixels; a live receiver answers undefined.
pub fn scroll(activation: &mut Avm1, this: usize, args: &Vec<Value>) -> (r: Result<Value, Error>)
    requires
        old(activation).wf(),
    ensures
        final(activation).wf(),
        if old(activation).live_bitmap(this as int) {
            let b0 = old(activation).bitmap(this as int);
            let b1 = final(activation).bitmap(this as int);
            let dx = spec_arg_i32(args@, 0, 0i32);
            let dy = spec_arg_i32(args@, 1, 0i32);
            &&& r == Ok::<Value, Error>(Value::Undefined)
            &&& final(activation).is_bitmap(this as int)
            &&& final(activation).objects@.len() == old(activation).objects@.len()
            &&& (forall|i: int|
                0 <= i < old(activation).objects@.len() && i != this as int ==> final(activation).objects@[i] == old(activation).objects@[i])
            &&& b1 == (BitmapData { pixels: b1.pixels, ..b0 })
            &&& (forall|px: int, py: int|
                b0.in_bounds(px, py) ==> b1.pixel_at(px, py) == (if b0.in_bounds(
                    px - dx as int,
                    py - dy as int,
                ) {
                    b0.pixel_at(px - dx as int, py - dy as int)
                } else {
                    b0.pixel_at(px, py)
                }))
        } else {
            *final(activation) == *old(activation) && r == Ok::<Value, Error>(Value::Int(-1i32))
        },
{
    let live = match bitmap_ref(activation, this) {
        Some(b) => !b.disposed(),
        None => false,
    };
    if !live {
        return Ok(Value::Int(-1i32));
    }
    let dx = arg_i32(args, 0, 0);
    let dy = arg_i32(args, 1, 0);
    let bref = &mut activation.objects[this];
    match bref {
        Avm1Object::BitmapData(b) => {
            b.scroll(dx, dy);
        },
        _ => {},
    }
    Ok(Value::Undefined)
}

/// Compare the receiver with another bitmap: -1 when the receiver is missing
/// or disposed, -2 when the other is, -3 and -4 for size mismatches, 0 for
/// equal pixels, and otherwise a fresh bitmap of the pixel differences.
pub fn compare(activation: &mut Avm1, this: usize, args: &Vec<Value>) -> (r: Result<Value, Error>)
    requires
        old(activation).wf(),
    ensures
        final(activation).wf(),
        !old(activation).live_bitmap(this as int) ==> r == Ok::<Value, Error>(Value::Int(-1i32))
            && *final(activation) == *old(activation),
        old(activation).live_bitmap(this as int) ==> ({
            let other = other_bitmap(*old(activation), args@);
            match other {
                None => r == Ok::<Value, Error>(Value::Int(-2i32)) && *final(activation) == *old(activation),
                Some(o) => {
                    let a = old(activation).bitmap(this as int);
                    let b = old(activation).bitmap(o as int);
                    if a.width != b.width {
                        r == Ok::<Value, Error>(Value::Int(-3i32)) && *final(activation) == *old(activation)
                    } else if a.height != b.height {
                        r == Ok::<Value, Error>(Value::Int(-4i32)) && *final(activation) == *old(activation)
                    } else if a.pixels@ == b.pixels@ {
                        r == Ok::<Value, Error>(Value::Int(0i32)) && *final(activation) == *old(activation)
                    } else {
                        &&& r == Ok::<Value, Error>(
                            Value::Object(old(activation).objects@.len() as usize),
                        )
                        &&& final(activation).objects@.len() == old(activation).objects@.len() + 1
                        &&& (forall|i: int|
                            0 <= i < old(activation).objects@.len() ==> final(activation).objects@[i] == old(activation).objects@[i])
                        &&& (final(activation).objects@.last() matches Avm1Object::BitmapData(d)
                            && d.width == a.width && d.height == a.height && d.pixels@.len()
                            == a.pixels@.len() && (forall|i: int|
                            0 <= i < d.pixels@.len() ==> d.pixels@[i]
                                == crate::bitmap::diff_pixel(a.pixels@[i], b.pixels@[i])))
                    }
                },
            }
        }),
{
    let live = match bitmap_ref(activation, this) {
        Some(b) => !b.disposed(),
        None => false,
    };
    if !live {
        return Ok(Value::Int(-1i32));
    }
    let other = match find_other_bitmap(activation, args) {
        Some(o) => o,
        None => {
            return Ok(Value::Int(-2i32));
        },
    };
    let (aw, ah, bw, bh) = match (&activation.objects[this], &activation.objects[other]) {
        (Avm1Object::BitmapData(a), Avm1Object::BitmapData(b)) => (
            a.width(),
            a.height(),
            b.width(),
            b.height(),
        ),
        _ => (0, 0, 0, 0),
    };
    if aw != bw {
        return Ok(Value::Int(-3i32));
    }
    if ah != bh {
        return Ok(Value::Int(-4i32));
    }
    let diff = match (&activation.objects[this], &activation.objects[other]) {
        (Avm1Object::BitmapData(a), Avm1Object::BitmapData(b)) => a.compare(b),
        _ => None,
    };
    match diff {
        None => Ok(Value::Int(0i32)),
        Some(d) => {
            let id = activation.objects.len();
            activation.objects.push(Avm1Object::BitmapData(d));
            Ok(Value::Object(id))
        },
    }
}

/// The other bitmap of a comparison: the first argument, when it is a live
/// bitmap object.
pub open spec fn other_bitmap(ctx: Avm1, args: Seq<Value>) -> Option<usize> {
    if args.len() >= 1 && (args[0] matches Value::Object(o)) && ctx.live_bitmap(
        (args[0]->Object_0) as int,
    ) {
        Some(args[0]->Object_0)
    } else {
        None
    }
}

fn find_other_bitmap(activation: &Avm1, args: &Vec<Value>) -> (r: Option<usize>)
    ensures
        r == other_bitmap(*activation, args@),
{
    if args.len() >= 1 {
        match &args[0] {
            Value::Object(o) => {
                let o = *o;
                match bitmap_ref(activation, o) {
                    Some(b) => {
                        if !b.disposed() {
                            Some(o)
                        } else {
                            None
                        }
                    },
                    None => None,
                }
            },
            _ => None,
        }
    } else {
        None
    }
}

/// Filters are not modelled: always -1, with nothing changed.
pub fn apply_filter(activation: &Avm1, this: usize, args: &Vec<Value>) -> (r: Result<Value, Error>)
    ensures
        r == Ok::<Value, Error>(Value::Int(-1i32)),
{
    Ok(Value::Int(-1i32))
}

/// Filter rectangles are not modelled: undefined for a live receiver, -1
/// otherwise, with nothing changed.
pub fn generate_filter_rect(activation: &Avm1, this: usize, args: &Vec<Value>) -> (r: Result<
    Value,
    Error,
>)
    ensures
        r == Ok::<Value, Error>(
            if activation.live_bitmap(this as int) {
                Value::Undefined
            } else {
                Value::Int(-1i32)
            },
        ),
{
    let live = match bitmap_ref(activation, this) {
        Some(b) => !b.disposed(),
        None => false,
    };
    if live {
        Ok(Value::Undefined)
    } else {
        Ok(Value::Int(-1i32))
    }
}

/// Hit testing is not modelled: undefined for a live receiver, -1 otherwise,
/// with nothing changed.
pub fn hit_test(activation: &Avm1, this: usize, args: &Vec<Value>) -> (r: Result<Value, Error>)
    ensures
        r == Ok::<Value, Error>(
            if activation.live_bitmap(this as int) {
                Value::Undefined
            } else {
                Value::Int(-1i32)
            },
        ),
{
    let live = match bitmap_ref(activation, this) {
        Some(b) => !b.disposed(),
        None => false,
    };
    if live {
        Ok(Value::Undefined)
    } else {
        Ok(Value::Int(-1i32))
    }
}

/// Pixel dissolving is not modelled: undefined for a live receiver, -1
/// otherwise, with nothing changed.
pub fn pixel_dissolve(activation: &Avm1, this: usize, args: &Vec<Value>) -> (r: Result<
    Value,
    Error,
>)
    ensures
        r == Ok::<Value, Error>(
            if activation.live_bitmap(this as int) {
                Value::Undefined
            } else {
                Value::Int(-1i32)
            },
        ),
{
    let live = match bitmap_ref(activation, this) {
        Some(b) => !b.disposed(),
        None => false,
    };
    if live {
        Ok(Value::Undefined)
    } else {
        Ok(Value::Int(-1i32))
    }
}

/// Look a bitmap character up in the export library by name and answer a
/// fresh transparent bitmap object holding its pixels, or undefined when the
/// library has no such name.
/// Index of the first library entry exported under `name`, at or after `i`,
/// or the library's length when none is.
pub open spec fn lib_find(lib: Seq<(Vec<u8>, Bitmap)>, name: Seq<u8>, i: int) -> int
    decreases lib.len() - i,
{
    if i < 0 || i >= lib.len() {
        lib.len() as int
    } else if lib[i].0@ == name {
        i
    } else {
        lib_find(lib, name, i + 1)
    }
}

pub fn load_bitmap(activation: &mut Avm1, this: usize, args: &Vec<Value>) -> (r: Result<
    Value,
    Error,
>)
    requires
        old(activation).wf(),
    ensures
        final(activation).wf(),
        r is Ok,
        final(activation).library@ == old(activation).library@,
        final(activation).swf_version == old(activation).swf_version,
        final(activation).objects@.len() >= old(activation).objects@.len(),
        forall|i: int|
            0 <= i < old(activation).objects@.len() ==> final(activation).objects@[i] == old(activation).objects@[i],
        (args@.len() == 0 || !(args@[0] is Str)) ==> r == Ok::<Value, Error>(Value::Undefined)
            && *final(activation) == *old(activation),
        args@.len() > 0 ==> (args@[0] matches Value::Str(s) ==> ({
            let f = lib_find(old(activation).library@, s@, 0);
            if f < old(activation).library@.len() {
                let bm = old(activation).library@[f].1;
                &&& r == Ok::<Value, Error>(Value::Object(old(activation).objects@.len() as usize))
                &&& final(activation).objects@.len() == old(activation).objects@.len() + 1
                &&& (final(activation).objects@.last() matches Avm1Object::BitmapData(b) && ({
                    &&& b.width == bm.width as u32
                    &&& b.height == bm.height as u32
                    &&& b.transparency
                    &&& !b.disposed
                    &&& b.pixels@ == bm.pixels@
                }))
            } else {
                r == Ok::<Value, Error>(Value::Undefined) && *final(activation) == *old(
                    activation,
                )
            }
        })),
{
    let name: &Vec<u8> = match args.len() {
        0 => {
            return Ok(Value::Undefined);
        },
        _ => match &args[0] {
            Value::Str(s) => s,
            _ => {
                return Ok(Value::Undefined);
            },
        },
    };
    let n = activation.library.len();
    let mut k: usize = 0;
    let mut found: Option<usize> = None;
    while k < n && found.is_none()
        invariant
            n == activation.library@.len(),
            k <= n,
            match found {
                Some(f) => f < n && f == lib_find(activation.library@, name@, 0)
                    && activation.library@[f as int].0@ == name@,
                None => lib_find(activation.library@, name@, 0) == lib_find(
                    activation.library@,
                    name@,
                    k as int,
                ),
            },
        decreases n - k,
    {
        if crate::interner::bytes_eq(&activation.library[k].0, name) {
            found = Some(k);
        }
        k = k + 1;
    }
    let f = match found {
        Some(f) => f,
        None => {
            return Ok(Value::Undefined);
        },
    };
    let w = activation.library[f].1.width as u32;
    let h = activation.library[f].1.height as u32;
    let pixels = crate::context::copy_vec(&activation.library[f].1.pixels);
    let mut fresh = BitmapData::new();
    fresh.set_pixels(w, h, true, pixels);
    let id = activation.objects.len();
    activation.objects.push(Avm1Object::BitmapData(fresh));
    Ok(Value::Object(id))
}

} // verus!
