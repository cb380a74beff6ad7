use vstd::prelude::*;

use crate::text::{decimal, digits_value, lemma_decimal_reads_back, push_decimal};

verus! {

/// Enum for the different face culling modes.
#[derive(Debug, Clone, Copy, PartialEq, Eq, Structural)]
pub enum FaceCulling {
    /// No faces are culled.
    Disabled,
    Front,
    Back,
    FrontAndBack,
}

/// The types of render buffers.
#[derive(Debug, Clone, Copy, PartialEq, Eq, Structural, PartialOrd, Ord)]
pub enum RenderBufferType {
    Depth,
}

impl RenderBufferType {
    /// Returns the graphics API constant of the buffer type.
    pub fn gl_enum(&self) -> (r: u32)
        ensures
            r == 0x81A6,
    {
        match self {
            RenderBufferType::Depth => 0x81A6,
        }
    }
}

/// The graphics API constant of signed bytes.
pub const GL_BYTE: u32 = 0x1400;
/// The graphics API constant of unsigned bytes.
pub const GL_UNSIGNED_BYTE: u32 = 0x1401;
/// The graphics API constant of signed 16-bit integers.
pub const GL_SHORT: u32 = 0x1402;
/// The graphics API constant of unsigned 16-bit integers.
pub const GL_UNSIGNED_SHORT: u32 = 0x1403;
/// The graphics API constant of signed 32-bit integers.
pub const GL_INT: u32 = 0x1404;
/// The graphics API constant of unsigned 32-bit integers.
pub const GL_UNSIGNED_INT: u32 = 0x1405;
/// The graphics API constant of 32-bit floats.
pub const GL_FLOAT: u32 = 0x1406;

/// The data type in which vertex and index data is encoded
#[derive(Debug, Clone, Copy, PartialEq, Eq, Structural)]
pub enum DataType {
    Byte,
    UnsignedByte,
    Short,
    UnsignedShort,
    Int,
    UnsignedInt,
    Float,
}

impl DataType {
    /// The size in bytes of the data type.
    pub open spec fn byte_size(self) -> nat {
        match self {
            DataType::Byte | DataType::UnsignedByte => 1,
            DataType::Short | DataType::UnsignedShort => 2,
            DataType::Int | DataType::UnsignedInt | DataType::Float => 4,
        }
    }

    /// The graphics API constant of the data type.
    pub open spec fn gl_type(self) -> u32 {
        match self {
            DataType::Byte => GL_BYTE,
            DataType::UnsignedByte => GL_UNSIGNED_BYTE,
            DataType::Short => GL_SHORT,
            DataType::UnsignedShort => GL_UNSIGNED_SHORT,
            DataType::Int => GL_INT,
            DataType::UnsignedInt => GL_UNSIGNED_INT,
            DataType::Float => GL_FLOAT,
        }
    }

    /// Returns the size in bytes of the data type
    pub fn size(&self) -> (r: usize)
        ensures
            r == self.byte_size(),
    {
        match self {
            DataType::Byte => 1usize,
            DataType::UnsignedByte => 1usize,
            DataType::Short => 2usize,
            DataType::UnsignedShort => 2usize,
            DataType::Int => 4usize,
            DataType::UnsignedInt => 4usize,
            DataType::Float => 4usize,
        }
    }

    /// Returns true if the datatype is an integer and false otherwise.
    pub fn is_integer(self) -> (r: bool)
        ensures
            r <==> self != DataType::Float,
    {
        self != DataType::Float
    }

    /// Returns the corresponding graphics API type
    pub fn to_gl_type(self) -> (r: u32)
        ensures
            r == self.gl_type(),
    {
        match self {
            DataType::Byte => GL_BYTE,
            DataType::UnsignedByte => GL_UNSIGNED_BYTE,
            DataType::Short => GL_SHORT,
            DataType::UnsignedShort => GL_UNSIGNED_SHORT,
            DataType::Int => GL_INT,
            DataType::UnsignedInt => GL_UNSIGNED_INT,
            DataType::Float => GL_FLOAT,
        }
    }
}

/// The types whose values can be handed to the graphics API as vertex or index data.
pub trait DataTypeTrait {
    /// The data type of the implementing type.
    spec fn data_type() -> DataType;

    /// Returns the data type of the implementing type.
    fn to_type() -> (r: DataType)
        ensures
            r == Self::data_type(),
    ;
}

impl DataTypeTrait for i8 {
    open spec fn data_type() -> DataType {
        DataType::Byte
    }

    fn to_type() -> (r: DataType) {
        DataType::Byte
    }
}

impl DataTypeTrait for u8 {
    open spec fn data_type() -> DataType {
        DataType::UnsignedByte
    }

    fn to_type() -> (r: DataType) {
        DataType::UnsignedByte
    }
}

impl DataTypeTrait for i16 {
    open spec fn data_type() -> DataType {
        DataType::Short
    }

    fn to_type() -> (r: DataType) {
        DataType::Short
    }
}

impl DataTypeTrait for u16 {
    open spec fn data_type() -> DataType {
        DataType::UnsignedShort
    }

    fn to_type() -> (r: DataType) {
        DataType::UnsignedShort
    }
}

impl DataTypeTrait for i32 {
    open spec fn data_type() -> DataType {
        DataType::Int
    }

    fn to_type() -> (r: DataType) {
        DataType::Int
    }
}

impl DataTypeTrait for u32 {
    open spec fn data_type() -> DataType {
        DataType::UnsignedInt
    }

    fn to_type() -> (r: DataType) {
        DataType::UnsignedInt
    }
}

impl DataType {
    /// Returns the data type of the given type.
    pub fn from_type<Type: DataTypeTrait>() -> (r: DataType)
        ensures
            r == Type::data_type(),
    {
        Type::to_type()
    }
}

/// Returns the corresponding error string for the given graphics API error code
///
/// * `error_code` - The error code
pub fn code_to_string(error_code: u32) -> (r: &'static str)
    ensures
        error_code == 0 ==> r@ == "no error"@,
        error_code == 0x0500 ==> r@ == "invalid enumerant"@,
        error_code == 0x0501 ==> r@ == "invalid value"@,
        error_code == 0x0502 ==> r@ == "invalid operation"@,
        error_code == 0x0503 ==> r@ == "stack overflow"@,
        error_code == 0x0504 ==> r@ == "stack underflow"@,
        error_code == 0x0505 ==> r@ == "out of memory"@,
        error_code == 0x0506 ==> r@ == "invalid framebuffer operation"@,
        !(error_code == 0 || 0x0500 <= error_code <= 0x0506) ==> r@ == "unknown error code"@,
{
    match error_code {
        0 => "no error",
        0x0500 => "invalid enumerant",
        0x0501 => "invalid value",
        0x0502 => "invalid operation",
        0x0503 => "stack overflow",
        0x0504 => "stack underflow",
        0x0505 => "out of memory",
        0x0506 => "invalid framebuffer operation",
        _ => "unknown error code",
    }
}

/// The graphics API constant of RGB pixels.
pub const GL_RGB: u32 = 0x1907;
/// The graphics API constant of RGBA pixels.
pub const GL_RGBA: u32 = 0x1908;
/// The graphics API constant of nearest-neighbor filtering.
pub const GL_NEAREST: u32 = 0x2600;
/// The graphics API constant of linear filtering.
pub const GL_LINEAR: u32 = 0x2601;

/// The pixel format
#[derive(Debug, Clone, Copy, PartialEq, Eq, Structural)]
pub enum PixelFormat {
    Rgb,
    Rgba,
}

impl PixelFormat {
    /// Returns the graphics API constant of the pixel format.
    pub fn gl_enum(self) -> (r: u32)
        ensures
            r == match self {
                PixelFormat::Rgb => GL_RGB,
                PixelFormat::Rgba => GL_RGBA,
            },
    {
        match self {
            PixelFormat::Rgb => GL_RGB,
            PixelFormat::Rgba => GL_RGBA,
        }
    }
}

/// The texture filtering
#[derive(Debug, Clone, Copy, PartialEq, Eq, Structural)]
pub enum Filtering {
    Linear,
    Nearest,
}

impl Filtering {
    /// Returns the graphics API constant of the filtering.
    pub fn gl_enum(self) -> (r: u32)
        ensures
            r == match self {
                Filtering::Linear => GL_LINEAR,
                Filtering::Nearest => GL_NEAREST,
            },
    {
        match self {
            Filtering::Linear => GL_LINEAR,
            Filtering::Nearest => GL_NEAREST,
        }
    }
}

/// The descriptor for a texture
#[derive(Debug, Clone, Copy, PartialEq, Eq, Structural)]
pub struct TextureDescriptor {
    pub width: u32,
    pub height: u32,
    pub format: PixelFormat,
    pub filtering: Filtering,
    pub datatype: DataType,
}

/// The errors of the graphics helpers.
#[derive(Debug)]
pub enum Error {
    IO(String),
}

/// The input texture data
pub struct TextureData<'a> {
    pub descriptor: TextureDescriptor,
    pub data: Option<&'a [u8]>,
}

/// The texture data holds unsigned bytes of RGB pixels, the only kind that can be written as
/// plain PPM image.
pub open spec fn ppm_supported(d: TextureDescriptor) -> bool {
    d.datatype == DataType::UnsignedByte && d.format == PixelFormat::Rgb
}

/// The plain PPM image of the given bytes: the header, then each byte followed by a space, with
/// a line break before each byte whose index is divisible by three times the width, and a final
/// line break.
pub open spec fn ppm_text(width: nat, height: nat, data: Seq<u8>) -> Seq<u8> {
    seq![80u8, 51u8, 10u8] + decimal(width) + seq![32u8] + decimal(height) + seq![10u8, 50u8, 53u8, 53u8]
        + ppm_body(data, 3 * width, data.len() as int) + seq![10u8]
}

/// A plain PPM image starts with `P3`, a line break, the width, a space, the height and a line
/// break: the first number of the header reads back as the width and the second as the height.
pub proof fn lemma_ppm_header(width: nat, height: nat, data: Seq<u8>)
    ensures
        ({
            let t = ppm_text(width, height, data);
            let w = decimal(width).len() as int;
            let h = decimal(height).len() as int;
            &&& t.len() >= 3 + w + 1 + h + 1
            &&& t.subrange(0, 3) == seq![80u8, 51u8, 10u8]
            &&& digits_value(t.subrange(3, 3 + w)) == width
            &&& t[3 + w] == 32u8
            &&& digits_value(t.subrange(3 + w + 1, 3 + w + 1 + h)) == height
            &&& t[3 + w + 1 + h] == 10u8
            &&& forall|i: int|
                3 <= i < 3 + w || 3 + w + 1 <= i < 3 + w + 1 + h ==> 48 <= #[trigger] t[i] <= 57
        }),
{
    let t = ppm_text(width, height, data);
    let dw = decimal(width);
    let dh = decimal(height);
    let w = dw.len() as int;
    let h = dh.len() as int;
    lemma_decimal_reads_back(width);
    lemma_decimal_reads_back(height);
    let head = seq![80u8, 51u8, 10u8] + dw + seq![32u8] + dh + seq![10u8];
    let rest = seq![50u8, 53u8, 53u8] + ppm_body(data, 3 * width, data.len() as int) + seq![10u8];
    assert(t == head + rest);
    assert(t.subrange(0, 3) == seq![80u8, 51u8, 10u8]);
    assert(t.subrange(3, 3 + w) == dw);
    assert(t.subrange(3 + w + 1, 3 + w + 1 + h) == dh);
    assert forall|i: int| 3 <= i < 3 + w || 3 + w + 1 <= i < 3 + w + 1 + h implies 48 <= #[trigger] t[i]
        <= 57 by {
        if i < 3 + w {
            assert(t[i] == dw[i - 3]);
        } else {
            assert(t[i] == dh[i - 3 - w - 1]);
        }
    }
}

/// The first `n` bytes of the PPM body: each byte followed by a space, preceded by a line break
/// where its index is divisible by `row`.
pub open spec fn ppm_body(data: Seq<u8>, row: nat, n: int) -> Seq<u8>
    decreases n,
{
    if n <= 0 {
        seq![]
    } else {
        let i = n - 1;
        ppm_body(data, row, i) + (if i % (row as int) == 0 {
            seq![10u8]
        } else {
            seq![]
        }) + decimal(data[i] as nat) + seq![32u8]
    }
}

impl<'a> TextureData<'a> {
    /// Returns the texture data as plain PPM image, or an error if the data are not unsigned
    /// bytes of RGB pixels.
    pub fn encode_debug_ppm(&self) -> (r: Result<Vec<u8>, Error>)
        requires
            ppm_supported(self.descriptor) ==> self.data is Some,
            ppm_supported(self.descriptor) ==> self.descriptor.width > 0 || self.data->0@.len()
                == 0,
            ppm_supported(self.descriptor) ==> 3 * self.descriptor.width <= usize::MAX,
        ensures
            r is Ok <==> ppm_supported(self.descriptor),
            r matches Ok(bytes) ==> bytes@ == ppm_text(
                self.descriptor.width as nat,
                self.descriptor.height as nat,
                self.data->0@,
            ),
            r matches Err(Error::IO(msg)) ==> msg@ == "Unsupported texture data format"@,
    {
        // check if texture data is supported
        if self.descriptor.datatype != DataType::UnsignedByte || self.descriptor.format
            != PixelFormat::Rgb {
            return Err(Error::IO(String::from_str("Unsupported texture data format")));
        }
        let data = match self.data {
            Some(data) => data,
            None => {
                return Err(Error::IO(String::from_str("Unsupported texture data format")));
            },
        };
        let width = self.descriptor.width as usize;
        let height = self.descriptor.height as usize;

        // write header
        let mut out: Vec<u8> = Vec::new();
        out.push(80);
        out.push(51);
        out.push(10);
        push_decimal(&mut out, width);
        out.push(32);
        push_decimal(&mut out, height);
        out.push(10);
        out.push(50);
        out.push(53);
        out.push(53);
        let ghost header = out@;

        // write actual image data
        let row: usize = 3 * width;
        let mut i: usize = 0;
        while i < data.len()
            invariant
                i <= data@.len(),
                row == 3 * width,
                width > 0 || data@.len() == 0,
                out@ == header + ppm_body(data@, row as nat, i as int),
            decreases data@.len() - i,
        {
            let ghost before = out@;
            let line = i % row == 0;
            if line {
                out.push(10);
            }
            push_decimal(&mut out, data[i] as usize);
            out.push(32);
            proof {
                let brk = if line {
                    seq![10u8]
                } else {
                    seq![]
                };
                assert(ppm_body(data@, row as nat, i + 1) == ppm_body(data@, row as nat, i as int)
                    + brk + decimal(data@[i as int] as nat) + seq![32u8]);
                assert(out@ == before + brk + decimal(data@[i as int] as nat) + seq![32u8]);
            }
            i += 1;
        }
        out.push(10);
        Ok(out)
    }
}

/// The options for creating the canvas.
pub struct CanvasOptions {
    pub width: u32,
    pub height: u32,
    pub title: String,
}

/// Trait for binding a graphics resource
pub trait Bind {
    /// Returns the resource id
    fn get_id(&self) -> u32;

    /// Binds the graphics resource
    fn bind(&self);

    /// Unbinds the graphics resource
    fn unbind(&self);
}

/// Trait for a graphics resource
pub trait Resource {
    /// Returns true if the resource is valid
    fn is_valid(&self) -> bool;

    /// Releases the resource
    fn release(&mut self);
}

} // verus!
