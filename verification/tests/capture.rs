use x11_mcp::capture::{
    capture_area, convert_capture, convert_to_rgb, encode_png, encoded, is_readable, pixel_format,
    scale_mask, DepthVisuals, ImageOrder, ImageSetup, PixelFormat, PixmapFormat, Visual,
};
use x11_mcp::error::ErrorCode;
use x11_mcp::types::Geometry;

#[test]
fn converts_little_endian_bgrx() {
    let rgb = convert_to_rgb(
        &vec![0x33, 0x22, 0x11, 0],
        1,
        1,
        PixelFormat {
            bits_per_pixel: 32,
            scanline_pad: 32,
            byte_order: ImageOrder::LsbFirst,
            red_mask: 0x00ff_0000,
            green_mask: 0x0000_ff00,
            blue_mask: 0x0000_00ff,
        },
    )
    .expect("valid pixel");
    assert_eq!(rgb, [0x11, 0x22, 0x33]);
}

#[test]
fn converts_big_endian_rgb565() {
    let rgb = convert_to_rgb(
        &vec![0xf8, 0x00],
        1,
        1,
        PixelFormat {
            bits_per_pixel: 16,
            scanline_pad: 16,
            byte_order: ImageOrder::MsbFirst,
            red_mask: 0xf800,
            green_mask: 0x07e0,
            blue_mask: 0x001f,
        },
    )
    .expect("valid pixel");
    assert_eq!(rgb, [255, 0, 0]);
}

#[test]
fn colours_are_rounded_to_eight_bits() {
    assert_eq!(scale_mask(0x0400, 0x07e0), 130);
    assert_eq!(scale_mask(0x0001, 0x001f), 8);
    assert_eq!(scale_mask(0xffff_ffff, 0), 0);
    assert_eq!(scale_mask(0xffff_ffff, 0x3ff0_0000), 255);
}

fn setup() -> ImageSetup {
    ImageSetup {
        byte_order: ImageOrder::LsbFirst,
        pixmap_formats: vec![PixmapFormat {
            depth: 24,
            bits_per_pixel: 32,
            scanline_pad: 32,
        }],
        allowed_depths: vec![DepthVisuals {
            depth: 24,
            visuals: vec![
                Visual {
                    visual_id: 1,
                    red_mask: 0xff,
                    green_mask: 0xff00,
                    blue_mask: 0x00ff_0000,
                },
                Visual {
                    visual_id: 2,
                    red_mask: 0x00ff_0000,
                    green_mask: 0xff00,
                    blue_mask: 0xff,
                },
            ],
        }],
        root_visual: 2,
    }
}

#[test]
fn image_errors_name_their_cause() {
    let format = pixel_format(&setup(), 24).unwrap();
    assert_eq!(format.red_mask, 0x00ff_0000);
    let depth = pixel_format(&setup(), 8).unwrap_err();
    assert_eq!(depth.code, ErrorCode::UnsupportedCapability);
    assert_eq!(depth.message, "no pixel format for depth 8");
    let mut no_visual = setup();
    no_visual.allowed_depths.clear();
    assert_eq!(
        pixel_format(&no_visual, 24).unwrap_err().message,
        "no visual for depth 24"
    );
    let short = convert_to_rgb(&vec![0; 7], 2, 1, format).unwrap_err();
    assert_eq!(short.code, ErrorCode::X11);
    assert_eq!(
        short.message,
        "short GetImage reply: expected at least 8 bytes, received 7"
    );
    let wide = PixelFormat {
        bits_per_pixel: 64,
        ..format
    };
    assert_eq!(
        convert_to_rgb(&vec![0; 64], 1, 1, wide)
            .unwrap_err()
            .message,
        "unsupported X11 pixel width: 64 bits"
    );
    let unordered = PixelFormat {
        byte_order: ImageOrder::Unknown,
        ..format
    };
    assert_eq!(
        convert_to_rgb(&vec![0; 4], 1, 1, unordered)
            .unwrap_err()
            .message,
        "unknown X11 image byte order"
    );
}

#[test]
fn captures_become_png_files() {
    let bounds = Geometry {
        x: 3,
        y: 4,
        width: 1,
        height: 2,
    };
    let data = vec![3, 2, 1, 0, 6, 5, 4, 0];
    let image = convert_capture(&data, 24, bounds, &setup()).unwrap();
    assert_eq!(image.rgb, [1, 2, 3, 4, 5, 6]);
    assert_eq!(&image.png[..8], b"\x89PNG\r\n\x1a\n");
    assert_eq!(image.png, encode_png(&image.rgb, 1, 2).unwrap());
    let failed = encoded(Err("disk".to_owned())).unwrap_err();
    assert_eq!(failed.code, ErrorCode::Internal);
    assert_eq!(failed.message, "disk");
}

#[test]
fn capture_bounds_fit_the_protocol() {
    let bounds = Geometry {
        x: -1,
        y: 2,
        width: 65535,
        height: 1,
    };
    let area = capture_area(bounds).unwrap();
    assert_eq!((area.x, area.y, area.width, area.height), (-1, 2, 65535, 1));
    let far = Geometry { x: 40000, ..bounds };
    assert_eq!(
        capture_area(far).unwrap_err().message,
        "capture x coordinate is out of range"
    );
    let low = Geometry { y: -40000, ..bounds };
    assert_eq!(
        capture_area(low).unwrap_err().message,
        "capture y coordinate is out of range"
    );
    let wide = Geometry {
        width: 65536,
        ..bounds
    };
    assert_eq!(
        capture_area(wide).unwrap_err().message,
        "capture width is out of range"
    );
    let tall = Geometry {
        height: 65536,
        ..bounds
    };
    assert_eq!(
        capture_area(tall).unwrap_err().message,
        "capture height is out of range"
    );
}

#[test]
fn rows_hold_whole_pixels_or_are_not_read() {
    let bounds = Geometry {
        x: 0,
        y: 0,
        width: 8,
        height: 2,
    };
    assert!(is_readable(64, 24, bounds, &setup()));
    let mut packed = setup();
    packed.pixmap_formats[0].bits_per_pixel = 4;
    packed.pixmap_formats[0].scanline_pad = 8;
    assert!(!is_readable(8, 24, bounds, &packed));
    assert!(is_readable(7, 24, bounds, &packed));
    assert!(convert_capture(&vec![0; 7], 24, bounds, &packed).is_err());
    assert!(is_readable(8, 99, bounds, &packed));
    packed.pixmap_formats[0].scanline_pad = 64;
    assert!(is_readable(16, 24, bounds, &packed));
    assert!(convert_capture(&vec![0; 16], 24, bounds, &packed).is_ok());
}

#[test]
fn images_of_the_wrong_size_are_refused() {
    let short = encode_png(&vec![1, 2, 3], 1, 2).unwrap_err();
    assert_eq!(short.code, ErrorCode::Internal);
    assert!(!short.retryable);
    assert_eq!(short.message, "wrong data size, expected 6 got 3");
    let long = encode_png(&vec![0; 7], 2, 1).unwrap_err();
    assert_eq!(long.message, "wrong data size, expected 6 got 7");
    assert_eq!(
        encode_png(&Vec::new(), 0, 0).unwrap_err().message,
        "Zero width not allowed"
    );
    assert_eq!(
        encode_png(&vec![1], 4, 0).unwrap_err().message,
        "Zero height not allowed"
    );
}
