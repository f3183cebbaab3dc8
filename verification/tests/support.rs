use gl_editor::color::Color;
use gl_editor::glyph::{fill_glyph_texture, glyph_fits_buffer, glyph_texture_size};
use gl_editor::platform::find_sdl_gl_driver;
use gl_editor::shader::shader_file_names;

#[test]
fn hex_decodes_argb() {
    let c = Color::hex(0xFF_11_22_33);
    assert_eq!(c, Color::rgba(0x11, 0x22, 0x33, 0xFF));
    assert_eq!(Color::hex(0), Color::rgba(0, 0, 0, 0));
    assert_eq!(Color::hex(0x55_FF_FF_FF), Color::rgba(255, 255, 255, 0x55));
}

#[test]
fn rgb_is_opaque() {
    assert_eq!(Color::rgb(1, 2, 3), Color::rgba(1, 2, 3, 255));
    assert_eq!(Color::rgb(0x86, 0x86, 0x86), Color::hex(0xFF_86_86_86));
}

#[test]
fn hex_round_trips() {
    for code in [0u32, 1, 0xFF2D2D2D, 0x12345678, u32::MAX] {
        let c = Color::hex(code);
        let packed = ((c.alpha as u32) << 24) | ((c.red as u32) << 16) | ((c.green as u32) << 8) | c.blue as u32;
        assert_eq!(packed, code);
    }
}

#[test]
fn glyph_rows_apart() {
    let mut buffer = vec![7u8; 20];
    let bitmap = [10u8, 20, 30, 40];
    fill_glyph_texture(&mut buffer, 10, &bitmap, 2, 2);
    assert_eq!(
        buffer,
        vec![10, 255, 255, 255, 20, 255, 255, 255, 7, 7, 30, 255, 255, 255, 40, 255, 255, 255, 7, 7]
    );
}

#[test]
fn glyph_rows_overlap() {
    let mut buffer = vec![0u8; 10];
    let bitmap = [1u8, 2, 3, 4];
    fill_glyph_texture(&mut buffer, 2, &bitmap, 2, 2);
    assert_eq!(buffer, vec![1, 255, 3, 255, 255, 255, 4, 255, 255, 255]);
}

#[test]
fn glyph_empty() {
    let mut buffer = vec![9u8; 3];
    fill_glyph_texture(&mut buffer, 4, &[], 0, 5);
    assert_eq!(buffer, vec![9, 9, 9]);
}

#[test]
fn shader_files() {
    let (frag, vert) = shader_file_names("rounded");
    assert_eq!(frag, "rounded.frag");
    assert_eq!(vert, "rounded.vert");
}

#[test]
fn finds_opengl_driver() {
    let names = vec![String::from("direct3d"), String::from("opengl"), String::from("opengles2"), String::from("opengl")];
    assert_eq!(find_sdl_gl_driver(&names), Some(1));
    let names = vec![String::from("software")];
    assert_eq!(find_sdl_gl_driver(&names), None);
    assert_eq!(find_sdl_gl_driver(&Vec::new()), None);
}

#[test]
fn glyph_fit_checks() {
    assert!(!glyph_fits_buffer(9, 2, 2, 2));
    assert!(glyph_fits_buffer(10, 2, 2, 2));
    assert!(glyph_fits_buffer(0, 0, 0, 5));
    assert!(!glyph_fits_buffer(100, usize::MAX, 1, 3));
    assert_eq!(glyph_texture_size(0, 7), (1, 7));
    assert_eq!(glyph_texture_size(5, 0), (5, 1));
}
