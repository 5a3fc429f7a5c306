use bad_ascii::error::PlaybackError;
use bad_ascii::source::{extract_frames, frame_size, parse_u32, parse_video_dimensions};
use bad_ascii::text::chars_of;

fn number(text: &str) -> Option<u32> {
    let chars = chars_of(text);
    parse_u32(&chars, 0, chars.len())
}

#[test]
fn dimensions_of_a_probe_report() {
    assert_eq!(parse_video_dimensions("1920,1080\n"), Ok((1920, 1080)));
    assert_eq!(parse_video_dimensions("640,480"), Ok((640, 480)));
    assert_eq!(parse_video_dimensions("  \t1,2\r\n"), Ok((1, 2)));
    assert_eq!(parse_video_dimensions("0,0"), Ok((0, 0)));
}

#[test]
fn dimensions_take_the_first_two_fields() {
    assert_eq!(parse_video_dimensions("320,240,25"), Ok((320, 240)));
    assert_eq!(parse_video_dimensions("+7,007"), Ok((7, 7)));
    assert_eq!(parse_video_dimensions("4294967295,1"), Ok((4294967295, 1)));
}

#[test]
fn dimensions_need_two_numbers() {
    for report in ["", "\n", "1920", "1920,", ",1080", ",", "1920;1080"] {
        assert_eq!(parse_video_dimensions(report), Err(PlaybackError::Decode), "{:?}", report);
    }
}

#[test]
fn every_field_has_to_be_a_number() {
    for report in [
        "1920,1080,",
        "1920,1080,x",
        "1920, 1080",
        "1920 ,1080",
        "1920,1080\n1920,1080",
        "-1,5",
        "1.5,2",
        "4294967296,1",
        "1,99999999999999999999999",
        "+,1",
        "++1,1",
        "1,\u{661}",
        "N/A,N/A",
    ] {
        assert_eq!(parse_video_dimensions(report), Err(PlaybackError::Decode), "{:?}", report);
    }
}

#[test]
fn numbers_match_the_standard_library() {
    for text in [
        "", "0", "00", "+0", "+", "-0", "12", "+12", "1+2", " 1", "1 ", "4294967295",
        "4294967296", "42949672950", "000000000000000000001", "9999999999", "a", "1a", "٣",
    ] {
        assert_eq!(number(text), text.parse::<u32>().ok(), "{:?}", text);
    }
}

#[test]
fn number_inside_a_longer_text() {
    let chars = chars_of("ab123,45");
    assert_eq!(parse_u32(&chars, 2, 5), Some(123));
    assert_eq!(parse_u32(&chars, 6, 8), Some(45));
    assert_eq!(parse_u32(&chars, 2, 6), None);
    assert_eq!(parse_u32(&chars, 3, 3), None);
}

#[test]
fn frame_size_is_three_bytes_per_pixel() {
    assert_eq!(frame_size(2, 2), Some(12));
    assert_eq!(frame_size(1920, 1080), Some(6220800));
    assert_eq!(frame_size(1, 1), Some(3));
}

#[test]
fn frame_size_of_unusable_geometry() {
    assert_eq!(frame_size(0, 10), None);
    assert_eq!(frame_size(10, 0), None);
    assert_eq!(frame_size(0, 0), None);
}

#[test]
fn stream_is_cut_into_whole_frames() {
    let stream: Vec<u8> = (0u8..24).collect();
    let frames = extract_frames(&stream, 2, 2).unwrap();
    assert_eq!(frames.len(), 2);
    assert_eq!(frames[0].width, 2);
    assert_eq!(frames[0].height, 2);
    assert_eq!(frames[0].pixels, (0u8..12).collect::<Vec<u8>>());
    assert_eq!(frames[1].pixels, (12u8..24).collect::<Vec<u8>>());
}

#[test]
fn trailing_partial_frame_is_dropped() {
    let stream: Vec<u8> = (0u8..29).collect();
    let frames = extract_frames(&stream, 2, 2).unwrap();
    assert_eq!(frames.len(), 2);
    assert_eq!(frames[1].pixels, (12u8..24).collect::<Vec<u8>>());
    let short: Vec<u8> = vec![1; 11];
    assert_eq!(extract_frames(&short, 2, 2).unwrap().len(), 0);
}

#[test]
fn empty_stream_has_no_frames() {
    assert_eq!(extract_frames(&[], 4, 4).unwrap().len(), 0);
}

#[test]
fn stream_with_unusable_geometry_is_a_decode_error() {
    let stream: Vec<u8> = vec![0; 30];
    assert!(matches!(extract_frames(&stream, 0, 5), Err(PlaybackError::Decode)));
    assert!(matches!(extract_frames(&stream, 5, 0), Err(PlaybackError::Decode)));
    assert!(matches!(extract_frames(&[], 0, 0), Err(PlaybackError::Decode)));
}

#[test]
fn single_pixel_frames() {
    let stream: Vec<u8> = vec![9, 8, 7, 6, 5, 4, 3];
    let frames = extract_frames(&stream, 1, 1).unwrap();
    assert_eq!(frames.len(), 2);
    assert_eq!(frames[0].pixels, vec![9, 8, 7]);
    assert_eq!(frames[1].pixels, vec![6, 5, 4]);
}
