//! The metadata records that go out with each vector.

use crate::lines::{join_lines, joined_lines};
use crate::text::{append_range, chars_of, string_of};
use image::ColorType;
use vstd::prelude::*;
use vstd::string::StringExecFns;

verus! {

/// The character for the decimal digit `d`.
pub open spec fn digit_char(d: nat) -> char {
    if d == 0 {
        '0'
    } else if d == 1 {
        '1'
    } else if d == 2 {
        '2'
    } else if d == 3 {
        '3'
    } else if d == 4 {
        '4'
    } else if d == 5 {
        '5'
    } else if d == 6 {
        '6'
    } else if d == 7 {
        '7'
    } else if d == 8 {
        '8'
    } else {
        '9'
    }
}

/// `n` written in decimal, without leading zeros.
pub open spec fn decimal(n: nat) -> Seq<char>
    decreases n,
{
    if n < 10 {
        seq![digit_char(n)]
    } else {
        decimal(n / 10).push(digit_char(n % 10))
    }
}

/// The character for the decimal digit `d`.
pub fn digit(d: usize) -> (c: char)
    requires
        d < 10,
    ensures
        c == digit_char(d as nat),
{
    if d == 0 {
        '0'
    } else if d == 1 {
        '1'
    } else if d == 2 {
        '2'
    } else if d == 3 {
        '3'
    } else if d == 4 {
        '4'
    } else if d == 5 {
        '5'
    } else if d == 6 {
        '6'
    } else if d == 7 {
        '7'
    } else if d == 8 {
        '8'
    } else {
        '9'
    }
}

/// Appends `n` in decimal to `out`.
pub fn push_decimal(out: &mut String, n: usize)
    ensures
        final(out)@ == old(out)@ + decimal(n as nat),
    decreases n,
{
    if n < 10 {
        out.push(digit(n));
        assert(out@ =~= old(out)@ + decimal(n as nat));
    } else {
        push_decimal(out, n / 10);
        out.push(digit(n % 10));
        assert(out@ =~= old(out)@ + decimal(n as nat));
    }
}

/// Number of characters of a chunk's text that the preview shows.
pub const PREVIEW_CHARS: usize = 100;

/// The marker that ends every preview.
pub open spec fn ellipsis() -> Seq<char> {
    seq!['.', '.', '.']
}

/// The preview of `text`: its first 100 characters, or all of it when it is
/// shorter, and then the marker, whether or not anything was cut.
pub open spec fn preview_of(text: Seq<char>) -> Seq<char> {
    text.take(
        if text.len() <= PREVIEW_CHARS {
            text.len() as int
        } else {
            PREVIEW_CHARS as int
        },
    ) + ellipsis()
}

/// Builds the preview of `text`. It is never longer than 103 characters.
pub fn content_preview(text: &Vec<char>) -> (preview: String)
    ensures
        preview@ == preview_of(text@),
        preview@.len() <= PREVIEW_CHARS + 3,
{
    let shown = if text.len() <= PREVIEW_CHARS {
        text.len()
    } else {
        PREVIEW_CHARS
    };
    let mut preview = String::new();
    let mut i: usize = 0;
    while i < shown
        invariant
            i <= shown <= text.len(),
            preview@ == text@.take(i as int),
        decreases shown - i,
    {
        preview.push(text[i]);
        assert(text@.take(i + 1) =~= text@.take(i as int).push(text@[i as int]));
        i += 1;
    }
    preview.push('.');
    preview.push('.');
    preview.push('.');
    assert(preview@ =~= preview_of(text@));
    preview
}

/// Length of `path` without what does not count at its end: separators,
/// and `.` components behind a separator.
pub open spec fn trimmed_len(path: Seq<char>) -> nat
    decreases path.len(),
{
    if path.len() > 0 && path.last() == '/' {
        trimmed_len(path.drop_last())
    } else if path.len() >= 2 && path.last() == '.' && path[path.len() - 2] == '/' {
        trimmed_len(path.drop_last())
    } else {
        path.len()
    }
}

/// Where the last component of `path` starts: behind its last separator, or
/// at 0 when it has none.
pub open spec fn component_start(path: Seq<char>) -> nat
    decreases path.len(),
{
    if path.len() > 0 && path.last() != '/' {
        component_start(path.drop_last())
    } else {
        path.len()
    }
}

/// The file name of a path whose components are separated by `/`: its last
/// component, where trailing separators and `.` components are passed over;
/// `None` where no component is left, or the last one is `.` or `..`.
pub open spec fn file_name(path: Seq<char>) -> Option<Seq<char>> {
    let trimmed = path.take(trimmed_len(path) as int);
    let name = trimmed.skip(component_start(trimmed) as int);
    if name.len() == 0 || name == seq!['.'] || name == seq!['.', '.'] {
        None
    } else {
        Some(name)
    }
}

/// The file name of `path`, or the empty text where it has none.
pub open spec fn file_name_or_empty(path: Seq<char>) -> Seq<char> {
    match file_name(path) {
        Some(name) => name,
        None => Seq::empty(),
    }
}

/// The file name that `path` ends in; empty where it ends in none.
pub fn file_name_of(path: &str) -> (name: String)
    ensures
        name@ == file_name_or_empty(path@),
{
    let chars = chars_of(path);
    let mut end: usize = chars.len();
    assert(chars@.take(end as int) =~= chars@);
    while end > 0 && (chars[end - 1] == '/' || (end >= 2 && chars[end - 1] == '.' && chars[end
        - 2] == '/'))
        invariant
            end <= chars.len(),
            trimmed_len(chars@) == trimmed_len(chars@.take(end as int)),
        decreases end,
    {
        assert(chars@.take(end as int).drop_last() =~= chars@.take(end - 1));
        end -= 1;
    }
    let ghost trimmed = chars@.take(end as int);
    assert(trimmed_len(trimmed) == end);
    let mut start: usize = end;
    assert(trimmed.take(start as int) =~= trimmed);
    while start > 0 && chars[start - 1] != '/'
        invariant
            start <= end <= chars.len(),
            trimmed == chars@.take(end as int),
            component_start(trimmed) == component_start(trimmed.take(start as int)),
        decreases start,
    {
        assert(trimmed.take(start as int).drop_last() =~= trimmed.take(start - 1));
        start -= 1;
    }
    assert(component_start(trimmed.take(start as int)) == start);
    let ghost name = trimmed.skip(start as int);
    assert(name =~= chars@.subrange(start as int, end as int));
    let len = end - start;
    if len == 0 || (len == 1 && chars[start] == '.') || (len == 2 && chars[start] == '.'
        && chars[start + 1] == '.') {
        proof {
            if len == 1 {
                assert(name =~= seq!['.']);
            }
            if len == 2 {
                assert(name =~= seq!['.', '.']);
            }
        }
        String::new()
    } else {
        proof {
            if len == 1 {
                assert(name[0] != '.');
            }
            if len == 2 {
                assert(name[0] != '.' || name[1] != '.');
            }
        }
        let mut text: Vec<char> = Vec::new();
        append_range(&mut text, &chars, start, end);
        string_of(&text)
    }
}

/// Where a text vector comes from: the file, the chunk, its lines and the
/// start of its text.
pub struct FileMetadata {
    pub label: String,
    pub file_path: String,
    pub file_name: String,
    pub chunk_index: usize,
    pub start_line: usize,
    pub end_line: usize,
    pub content_preview: String,
}

/// The label of chunk `chunk_index` of the file named `file_name`.
pub open spec fn chunk_label(file_name: Seq<char>, chunk_index: nat) -> Seq<char> {
    file_name + "_part"@ + decimal(chunk_index)
}

impl FileMetadata {
    /// Whether this is the record of chunk `chunk_index` of the file at
    /// `path`, named `file_name`, with the text `content` and the line range
    /// `start_line..end_line`.
    pub open spec fn describes(
        &self,
        path: Seq<char>,
        file_name: Seq<char>,
        content: Seq<char>,
        chunk_index: usize,
        start_line: usize,
        end_line: usize,
    ) -> bool {
        &&& self.label@ == chunk_label(file_name, chunk_index as nat)
        &&& self.file_path@ == path
        &&& self.file_name@ == file_name
        &&& self.chunk_index == chunk_index
        &&& self.start_line == start_line
        &&& self.end_line == end_line
        &&& self.content_preview@ == preview_of(
            joined_lines(content, start_line as nat, end_line as nat),
        )
    }

    /// Puts the record of a chunk together from the file's path, name and
    /// text and the chunk's index and line range.
    pub fn assemble(
        path: &str,
        file_name: String,
        content: &str,
        chunk_index: usize,
        start_line: usize,
        end_line: usize,
    ) -> (metadata: Self)
        ensures
            metadata.describes(
                path@,
                file_name@,
                content@,
                chunk_index,
                start_line,
                end_line,
            ),
            metadata.content_preview@.len() <= PREVIEW_CHARS + 3,
    {
        let chars = chars_of(content);
        let text = join_lines(&chars, start_line as u64, end_line as u64);
        let mut label = file_name.clone();
        label.append("_part");
        push_decimal(&mut label, chunk_index);
        FileMetadata {
            label,
            file_path: path.to_owned(),
            file_name,
            chunk_index,
            start_line,
            end_line,
            content_preview: content_preview(&text),
        }
    }
}

/// The record of chunk `chunk_index` of the file at `path`, whose text is
/// `content` and whose line range is `start_line..end_line`. The file name is
/// the one that the path ends in, or empty.
pub fn get_file_metadata(
    path: &str,
    content: &str,
    chunk_index: usize,
    start_line: usize,
    end_line: usize,
) -> (metadata: FileMetadata)
    ensures
        metadata.describes(
            path@,
            file_name_or_empty(path@),
            content@,
            chunk_index,
            start_line,
            end_line,
        ),
        metadata.content_preview@.len() <= PREVIEW_CHARS + 3,
{
    FileMetadata::assemble(path, file_name_of(path), content, chunk_index, start_line, end_line)
}

/// `image::ColorType`: the layout of the pixels of a decoded image, with its
/// variants as the image crate declares them.
#[verifier::external_type_specification]
pub struct ExColorType(image::ColorType);

/// The name of the colour space of an image whose pixels have the layout
/// `color`: the four 8-bit layouts have names, every other is unknown.
pub open spec fn color_space_of(color: ColorType) -> Seq<char> {
    match color {
        ColorType::L8 => "Grayscale"@,
        ColorType::La8 => "GrayscaleAlpha"@,
        ColorType::Rgb8 => "RGB"@,
        ColorType::Rgba8 => "RGBA"@,
        _ => "Unknown"@,
    }
}

/// Names the colour space of an image from the layout of its pixels.
pub fn color_space_label(color: ColorType) -> (label: String)
    ensures
        label@ == color_space_of(color),
{
    match color {
        ColorType::L8 => "Grayscale".to_owned(),
        ColorType::La8 => "GrayscaleAlpha".to_owned(),
        ColorType::Rgb8 => "RGB".to_owned(),
        ColorType::Rgba8 => "RGBA".to_owned(),
        _ => "Unknown".to_owned(),
    }
}

/// The name of the container format that `image::guess_format` reads from
/// the first bytes of a file, or `None` where it knows none.
pub uninterp spec fn guessed_format(bytes: Seq<u8>) -> Option<Seq<char>>;

/// `image::guess_format`: compares the start of `bytes` with the magic bytes
/// of the formats it knows. The result depends on `bytes` alone; a format is
/// handed on by the name of its variant.
#[verifier::external_body]
fn guess_format_name(bytes: &[u8]) -> (name: Option<String>)
    ensures
        match name {
            Some(n) => guessed_format(bytes@) == Some(n@),
            None => guessed_format(bytes@) is None,
        },
{
    match image::guess_format(bytes) {
        Ok(format) => Some(format!("{:?}", format)),
        Err(_) => None,
    }
}

/// The label for a guess: the name of the format, or `Unknown`.
pub open spec fn format_label_of(guess: Option<Seq<char>>) -> Seq<char> {
    match guess {
        Some(name) => name,
        None => "Unknown"@,
    }
}

/// Turns a guess at the container format into the label of the record.
pub fn format_label(guess: Option<String>) -> (label: String)
    ensures
        label@ == format_label_of(
            match guess {
                Some(name) => Some(name@),
                None => None,
            },
        ),
{
    match guess {
        Some(name) => name,
        None => "Unknown".to_owned(),
    }
}

/// Names the container format of a file from its first bytes.
pub fn image_format_label(bytes: &[u8]) -> (label: String)
    ensures
        label@ == format_label_of(guessed_format(bytes@)),
{
    format_label(guess_format_name(bytes))
}

/// What is recorded of an image: the file, its size, its container format,
/// its width and height, and its colour space.
pub struct ImageMetadata {
    pub label: String,
    pub file_path: String,
    pub file_name: String,
    pub file_size: u64,
    pub image_format: String,
    pub dimensions: (u32, u32),
    pub color_space: String,
}

impl ImageMetadata {
    /// Whether this is the record of the image at `path`, named `file_name`,
    /// with the given size, dimensions and pixel layout, whose file starts
    /// with `bytes`.
    pub open spec fn describes(
        &self,
        path: Seq<char>,
        file_name: Seq<char>,
        file_size: u64,
        dimensions: (u32, u32),
        color: ColorType,
        bytes: Seq<u8>,
    ) -> bool {
        &&& self.label@ == file_name
        &&& self.file_path@ == path
        &&& self.file_name@ == file_name
        &&& self.file_size == file_size
        &&& self.image_format@ == format_label_of(guessed_format(bytes))
        &&& self.dimensions == dimensions
        &&& self.color_space@ == color_space_of(color)
    }

    /// Puts the record of an image together.
    pub fn assemble(
        path: &str,
        file_name: String,
        file_size: u64,
        dimensions: (u32, u32),
        color: ColorType,
        bytes: &[u8],
    ) -> (metadata: Self)
        ensures
            metadata.describes(path@, file_name@, file_size, dimensions, color, bytes@),
    {
        ImageMetadata {
            label: file_name.clone(),
            file_path: path.to_owned(),
            file_name,
            file_size,
            image_format: image_format_label(bytes),
            dimensions,
            color_space: color_space_label(color),
        }
    }
}

/// The record of the image at `path`, as decoded: `file_size` bytes on disk,
/// `dimensions` wide and high, pixels laid out as `color`, the file's
/// content being `bytes`. The file name is the one that the path ends in.
pub fn get_image_metadata(
    path: &str,
    file_size: u64,
    dimensions: (u32, u32),
    color: ColorType,
    bytes: &[u8],
) -> (metadata: ImageMetadata)
    ensures
        metadata.describes(
            path@,
            file_name_or_empty(path@),
            file_size,
            dimensions,
            color,
            bytes@,
        ),
{
    ImageMetadata::assemble(path, file_name_of(path), file_size, dimensions, color, bytes)
}

} // verus!
