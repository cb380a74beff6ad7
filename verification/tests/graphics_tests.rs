use pixel_contrib::graphics::{
    code_to_string, DataType, FaceCulling, RenderBufferType, GL_BYTE, GL_FLOAT, GL_INT,
    GL_SHORT, GL_UNSIGNED_BYTE, GL_UNSIGNED_INT, GL_UNSIGNED_SHORT,
};

#[test]
fn test_data_type_size() {
    assert_eq!(DataType::Byte.size(), 1);
    assert_eq!(DataType::UnsignedByte.size(), 1);

    assert_eq!(DataType::Short.size(), 2);
    assert_eq!(DataType::UnsignedShort.size(), 2);

    assert_eq!(DataType::Int.size(), 4);
    assert_eq!(DataType::UnsignedInt.size(), 4);

    assert_eq!(DataType::Float.size(), 4);
}

#[test]
fn data_type_is_integer_except_float() {
    assert!(DataType::Byte.is_integer());
    assert!(DataType::UnsignedShort.is_integer());
    assert!(DataType::UnsignedInt.is_integer());
    assert!(!DataType::Float.is_integer());
}

#[test]
fn data_type_gl_constants() {
    assert_eq!(DataType::Byte.to_gl_type(), GL_BYTE);
    assert_eq!(DataType::UnsignedByte.to_gl_type(), GL_UNSIGNED_BYTE);
    assert_eq!(DataType::Short.to_gl_type(), GL_SHORT);
    assert_eq!(DataType::UnsignedShort.to_gl_type(), GL_UNSIGNED_SHORT);
    assert_eq!(DataType::Int.to_gl_type(), GL_INT);
    assert_eq!(DataType::UnsignedInt.to_gl_type(), GL_UNSIGNED_INT);
    assert_eq!(DataType::Float.to_gl_type(), 0x1406);
    assert_eq!(GL_FLOAT, 0x1406);
}

#[test]
fn render_buffer_depth_constant() {
    assert_eq!(RenderBufferType::Depth.gl_enum(), 0x81A6);
}

#[test]
fn error_codes_to_strings() {
    assert_eq!(code_to_string(0), "no error");
    assert_eq!(code_to_string(0x0500), "invalid enumerant");
    assert_eq!(code_to_string(0x0501), "invalid value");
    assert_eq!(code_to_string(0x0502), "invalid operation");
    assert_eq!(code_to_string(0x0503), "stack overflow");
    assert_eq!(code_to_string(0x0504), "stack underflow");
    assert_eq!(code_to_string(0x0505), "out of memory");
    assert_eq!(code_to_string(0x0506), "invalid framebuffer operation");
    assert_eq!(code_to_string(0x0507), "unknown error code");
    assert_eq!(code_to_string(1), "unknown error code");
}

#[test]
fn face_culling_variants_differ() {
    assert_ne!(FaceCulling::Disabled, FaceCulling::Back);
    assert_eq!(FaceCulling::FrontAndBack, FaceCulling::FrontAndBack);
}

use pixel_contrib::graphics::{Error, Filtering, PixelFormat, TextureData, TextureDescriptor};
use pixel_contrib::text::push_decimal;

fn descriptor(width: u32, height: u32, format: PixelFormat, datatype: DataType) -> TextureDescriptor {
    TextureDescriptor {
        width,
        height,
        format,
        filtering: Filtering::Linear,
        datatype,
    }
}

#[test]
fn ppm_of_rgb_bytes() {
    let bytes = [1u8, 2, 3, 4, 5, 6, 7, 8, 9, 10, 11, 12];
    let texture = TextureData {
        descriptor: descriptor(2, 2, PixelFormat::Rgb, DataType::UnsignedByte),
        data: Some(&bytes),
    };
    let ppm = texture.encode_debug_ppm().unwrap();
    assert_eq!(
        String::from_utf8(ppm).unwrap(),
        "P3\n2 2\n255\n1 2 3 4 5 6 \n7 8 9 10 11 12 \n"
    );
}

#[test]
fn ppm_rejects_unsupported_formats() {
    let bytes = [1u8, 2, 3, 4];
    let rgba = TextureData {
        descriptor: descriptor(1, 1, PixelFormat::Rgba, DataType::UnsignedByte),
        data: Some(&bytes),
    };
    match rgba.encode_debug_ppm() {
        Err(Error::IO(msg)) => assert_eq!(msg, "Unsupported texture data format"),
        Ok(_) => panic!("RGBA data must be refused"),
    }
    let floats = TextureData {
        descriptor: descriptor(1, 1, PixelFormat::Rgb, DataType::Float),
        data: None,
    };
    assert!(floats.encode_debug_ppm().is_err());
}

#[test]
fn texture_constants() {
    assert_eq!(PixelFormat::Rgb.gl_enum(), 0x1907);
    assert_eq!(PixelFormat::Rgba.gl_enum(), 0x1908);
    assert_eq!(Filtering::Nearest.gl_enum(), 0x2600);
    assert_eq!(Filtering::Linear.gl_enum(), 0x2601);
}

#[test]
fn decimal_digits() {
    let mut out = b"x".to_vec();
    push_decimal(&mut out, 0);
    push_decimal(&mut out, 1234);
    assert_eq!(out, b"x01234".to_vec());
}

#[test]
fn data_type_from_integer_types() {
    assert_eq!(DataType::from_type::<i8>(), DataType::Byte);
    assert_eq!(DataType::from_type::<u8>(), DataType::UnsignedByte);

    assert_eq!(DataType::from_type::<i16>(), DataType::Short);
    assert_eq!(DataType::from_type::<u16>(), DataType::UnsignedShort);

    assert_eq!(DataType::from_type::<i32>(), DataType::Int);
    assert_eq!(DataType::from_type::<u32>(), DataType::UnsignedInt);
}
