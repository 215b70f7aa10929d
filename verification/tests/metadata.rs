use image::ColorType;
use vekta::chunker::{get_line_range, split_into_chunks, CHUNK_SIZE};
use vekta::metadata::{
    color_space_label, content_preview, digit, file_name_of, format_label, get_file_metadata,
    get_image_metadata, image_format_label, push_decimal, FileMetadata, ImageMetadata,
    PREVIEW_CHARS,
};

fn decimal(n: usize) -> String {
    let mut out = String::new();
    push_decimal(&mut out, n);
    out
}

#[test]
fn digits_are_the_ten_decimal_characters() {
    let all: String = (0..10).map(digit).collect();
    assert_eq!(all, "0123456789");
}

#[test]
fn decimal_agrees_with_the_standard_library() {
    for n in (0..2000usize).chain([9_999, 10_000, 123_456_789, usize::MAX - 1, usize::MAX]) {
        assert_eq!(decimal(n), n.to_string());
    }
}

#[test]
fn decimal_is_appended_to_what_is_there() {
    let mut out = String::from("f.txt_part");
    push_decimal(&mut out, 0);
    assert_eq!(out, "f.txt_part0");
    push_decimal(&mut out, 407);
    assert_eq!(out, "f.txt_part0407");
}

#[test]
fn preview_of_a_short_text_still_ends_in_the_marker() {
    let text: Vec<char> = "short".chars().collect();
    assert_eq!(content_preview(&text), "short...");
    assert_eq!(content_preview(&Vec::new()), "...");
}

#[test]
fn preview_cuts_after_one_hundred_characters() {
    assert_eq!(PREVIEW_CHARS, 100);
    let exact: Vec<char> = std::iter::repeat('x').take(100).collect();
    assert_eq!(content_preview(&exact), "x".repeat(100) + "...");
    let longer: Vec<char> = "0123456789".chars().cycle().take(101).collect();
    assert_eq!(content_preview(&longer), "0123456789".repeat(10) + "...");
}

#[test]
fn preview_counts_characters_not_bytes() {
    let text: Vec<char> = std::iter::repeat('\u{e9}').take(150).collect();
    let preview = content_preview(&text);
    assert_eq!(preview.chars().count(), 103);
    assert_eq!(preview, "\u{e9}".repeat(100) + "...");
}

#[test]
fn file_name_is_the_last_component_of_the_path() {
    assert_eq!(file_name_of("docs/notes/f.txt"), "f.txt");
    assert_eq!(file_name_of("f.txt"), "f.txt");
    assert_eq!(file_name_of("/abs/dir/"), "dir");
    assert_eq!(file_name_of("dir//./"), "dir");
    assert_eq!(file_name_of("./archive.tar.gz"), "archive.tar.gz");
    assert_eq!(file_name_of("a/.hidden"), ".hidden");
    assert_eq!(file_name_of("a/..."), "...");
    assert_eq!(file_name_of("caf\u{e9}/na\u{ef}ve \u{1f600}.txt"), "na\u{ef}ve \u{1f600}.txt");
}

#[test]
fn a_path_without_a_last_component_has_an_empty_file_name() {
    assert_eq!(file_name_of("a/.."), "");
    assert_eq!(file_name_of(".."), "");
    assert_eq!(file_name_of("."), "");
    assert_eq!(file_name_of("./"), "");
    assert_eq!(file_name_of("/"), "");
    assert_eq!(file_name_of("//"), "");
    assert_eq!(file_name_of("/."), "");
    assert_eq!(file_name_of(""), "");
}

#[test]
fn file_name_agrees_with_the_standard_library() {
    let alphabet = ['a', '.', '/', ' '];
    let mut paths: Vec<String> = vec![String::new()];
    let mut first = 0;
    for _ in 0..7 {
        let last = paths.len();
        for i in first..last {
            for c in alphabet {
                let mut longer = paths[i].clone();
                longer.push(c);
                paths.push(longer);
            }
        }
        first = last;
    }
    assert_eq!(paths.len(), 21845);
    for path in &paths {
        let expected = std::path::Path::new(path)
            .file_name()
            .unwrap_or_default()
            .to_string_lossy()
            .into_owned();
        assert_eq!(file_name_of(path), expected, "{:?}", path);
    }
}

#[test]
fn file_metadata_of_a_chunk() {
    let content = "alpha beta\ngamma\r\ndelta epsilon\nzeta\n";
    let metadata: FileMetadata = get_file_metadata("docs/f.txt", content, 3, 1, 3);
    assert_eq!(metadata.label, "f.txt_part3");
    assert_eq!(metadata.file_path, "docs/f.txt");
    assert_eq!(metadata.file_name, "f.txt");
    assert_eq!(metadata.chunk_index, 3);
    assert_eq!(metadata.start_line, 1);
    assert_eq!(metadata.end_line, 3);
    assert_eq!(metadata.content_preview, "gamma\ndelta epsilon...");
}

#[test]
fn file_metadata_of_an_unreadable_file_has_an_empty_preview() {
    let metadata = get_file_metadata("gone.txt", "", 0, 0, 1);
    assert_eq!(metadata.label, "gone.txt_part0");
    assert_eq!(metadata.content_preview, "...");
}

#[test]
fn file_metadata_with_a_given_name() {
    let metadata = FileMetadata::assemble("x/y", String::from("name"), "one\ntwo", 12, 0, 9);
    assert_eq!(metadata.label, "name_part12");
    assert_eq!(metadata.file_path, "x/y");
    assert_eq!(metadata.file_name, "name");
    assert_eq!(metadata.content_preview, "one\ntwo...");
}

#[test]
fn previews_of_a_three_hundred_word_file_stay_within_one_hundred_and_three() {
    let mut content = String::new();
    for i in 0..300 {
        content.push_str(&format!("word{}", i));
        content.push(if (i + 1) % 10 == 0 { '\n' } else { ' ' });
    }
    let chunks = split_into_chunks(&content, CHUNK_SIZE);
    assert_eq!(chunks.len(), 2);
    for chunk_index in 0..chunks.len() {
        let (start_line, end_line) = get_line_range(&content, chunk_index, CHUNK_SIZE);
        let metadata = get_file_metadata("f.txt", &content, chunk_index, start_line, end_line);
        assert_eq!(metadata.label, format!("f.txt_part{}", chunk_index));
        assert_eq!(metadata.content_preview.chars().count(), 103);
        assert!(metadata.content_preview.ends_with("..."));
        let text = content
            .lines()
            .skip(start_line)
            .take(end_line - start_line)
            .collect::<Vec<_>>()
            .join("\n");
        let expected = text.chars().take(100).collect::<String>() + "...";
        assert_eq!(metadata.content_preview, expected);
    }
}

#[test]
fn color_spaces_of_the_eight_bit_layouts() {
    assert_eq!(color_space_label(ColorType::L8), "Grayscale");
    assert_eq!(color_space_label(ColorType::La8), "GrayscaleAlpha");
    assert_eq!(color_space_label(ColorType::Rgb8), "RGB");
    assert_eq!(color_space_label(ColorType::Rgba8), "RGBA");
}

#[test]
fn other_layouts_have_an_unknown_color_space() {
    for color in [
        ColorType::L16,
        ColorType::La16,
        ColorType::Rgb16,
        ColorType::Rgba16,
        ColorType::Rgb32F,
        ColorType::Rgba32F,
    ] {
        assert_eq!(color_space_label(color), "Unknown");
    }
}

#[test]
fn format_label_of_a_guess() {
    assert_eq!(format_label(Some(String::from("Png"))), "Png");
    assert_eq!(format_label(Some(String::new())), "");
    assert_eq!(format_label(None), "Unknown");
}

#[test]
fn image_format_is_read_from_the_magic_bytes() {
    assert_eq!(image_format_label(b"\x89PNG\r\n\x1a\n\0\0\0\rIHDR"), "Png");
    assert_eq!(image_format_label(&[0xff, 0xd8, 0xff, 0xe0, 0, 16]), "Jpeg");
    assert_eq!(image_format_label(b"GIF89a\x01\0\x01\0"), "Gif");
    assert_eq!(image_format_label(b"RIFF\x24\0\0\0WEBPVP8 "), "WebP");
    assert_eq!(image_format_label(b"BM\x46\0\0\0"), "Bmp");
    assert_eq!(image_format_label(b"P6\n1 1\n255\n\0\0\0"), "Pnm");
}

#[test]
fn image_format_of_other_bytes_is_unknown() {
    assert_eq!(image_format_label(b""), "Unknown");
    assert_eq!(image_format_label(b"plain text"), "Unknown");
    assert_eq!(image_format_label(&[0xff, 0xd8]), "Unknown");
    assert_eq!(image_format_label(b"Unknown"), "Unknown");
}

#[test]
fn image_metadata_of_a_decoded_image() {
    let bytes = b"\x89PNG\r\n\x1a\n rest of the file";
    let metadata: ImageMetadata =
        get_image_metadata("pics/2024/cat.png", 4096, (640, 480), ColorType::Rgba8, bytes);
    assert_eq!(metadata.label, "cat.png");
    assert_eq!(metadata.file_path, "pics/2024/cat.png");
    assert_eq!(metadata.file_name, "cat.png");
    assert_eq!(metadata.file_size, 4096);
    assert_eq!(metadata.image_format, "Png");
    assert_eq!(metadata.dimensions, (640, 480));
    assert_eq!(metadata.color_space, "RGBA");
}

#[test]
fn image_metadata_with_a_given_name() {
    let metadata = ImageMetadata::assemble(
        "scan.tga",
        String::from("scan.tga"),
        0,
        (1, 1),
        ColorType::L16,
        &[0, 0, 2, 0],
    );
    assert_eq!(metadata.label, "scan.tga");
    assert_eq!(metadata.image_format, "Unknown");
    assert_eq!(metadata.color_space, "Unknown");
    assert_eq!(metadata.dimensions, (1, 1));
}
