//! Pictures from the clipboard: what is accepted, and in which form it goes on.
use crate::input::DraftImage;
use crate::text;
use image::{AnimationDecoder, DynamicImage, GenericImageView, ImageFormat, ImageReader, RgbaImage};
use std::io::Cursor;
use std::sync::Arc;
use vstd::prelude::*;

verus! {

/// The most bytes that a picture may come in: 20 MiB.
pub const MAX_CLIPBOARD_IMAGE_SOURCE_BYTES: usize = 20_971_520;

/// The most pixels in a row or a column.
pub const MAX_USER_IMAGE_DIMENSION: u32 = 8_000;

/// The most pixels in all.
pub const MAX_USER_IMAGE_PIXELS: u64 = 32_000_000;

/// The most bytes that a picture may take as a PNG: 10 MiB.
pub const MAX_USER_IMAGE_PNG_BYTES: usize = 10_485_760;

/// A picture as it goes on: a PNG and its size.
#[derive(Debug, PartialEq, Eq)]
pub struct ClipboardImage {
    png_bytes: Vec<u8>,
    width: u32,
    height: u32,
}

/// A picture as it goes on.
pub struct ImageView {
    pub png: Seq<u8>,
    pub width: u32,
    pub height: u32,
}

impl View for ClipboardImage {
    type V = ImageView;

    closed spec fn view(&self) -> ImageView {
        ImageView { png: self.png_bytes@, width: self.width, height: self.height }
    }
}

impl ClipboardImage {
    pub fn png_bytes(&self) -> (r: &Vec<u8>)
        ensures
            r@ == self@.png,
    {
        &self.png_bytes
    }

    pub fn width(&self) -> (r: u32)
        ensures
            r == self@.width,
    {
        self.width
    }

    pub fn height(&self) -> (r: u32)
        ensures
            r == self@.height,
    {
        self.height
    }

    /// The picture as a part of the input.
    pub fn into_draft_image(self) -> (r: DraftImage)
        ensures
            (*r.png_bytes)@ == self@.png,
            r.width == self@.width,
            r.height == self@.height,
    {
        DraftImage::new(shared_slice(self.png_bytes), self.width, self.height)
    }
}

/// `Arc::from` of a vector: a shared slice with the same elements.
#[verifier::external_body]
fn shared_slice(v: Vec<u8>) -> (r: Arc<[u8]>)
    ensures
        (*r)@ == v@,
{
    Arc::from(v)
}

/// A picture as plain pixels: red, green, blue and alpha, row by row.
#[derive(Debug, PartialEq, Eq)]
pub struct ClipboardRgba {
    pub width: usize,
    pub height: usize,
    pub bytes: Vec<u8>,
}

/// Why there is no picture.
#[derive(Debug, PartialEq, Eq)]
pub enum ClipboardImageError {
    ClipboardUnavailable(String),
    NoImage(String),
    InvalidSource(String),
    UnsupportedFormat,
    Decode(String),
    Encode(String),
    Limit(&'static str),
}

pub enum ErrorView {
    ClipboardUnavailable(Seq<char>),
    NoImage(Seq<char>),
    InvalidSource(Seq<char>),
    UnsupportedFormat,
    Decode(Seq<char>),
    Encode(Seq<char>),
    Limit(Seq<char>),
}

impl View for ClipboardImageError {
    type V = ErrorView;

    open spec fn view(&self) -> ErrorView {
        match self {
            ClipboardImageError::ClipboardUnavailable(s) => ErrorView::ClipboardUnavailable(s@),
            ClipboardImageError::NoImage(s) => ErrorView::NoImage(s@),
            ClipboardImageError::InvalidSource(s) => ErrorView::InvalidSource(s@),
            ClipboardImageError::UnsupportedFormat => ErrorView::UnsupportedFormat,
            ClipboardImageError::Decode(s) => ErrorView::Decode(s@),
            ClipboardImageError::Encode(s) => ErrorView::Encode(s@),
            ClipboardImageError::Limit(s) => ErrorView::Limit(s@),
        }
    }
}

impl ErrorView {
    pub open spec fn text(self) -> Seq<char> {
        match self {
            ErrorView::ClipboardUnavailable(s) => "clipboard unavailable: "@ + s,
            ErrorView::NoImage(s) => "no usable image on clipboard: "@ + s,
            ErrorView::InvalidSource(s) => "clipboard image source is invalid: "@ + s,
            ErrorView::UnsupportedFormat => "clipboard image format is unsupported"@,
            ErrorView::Decode(s) => "clipboard image decode failed: "@ + s,
            ErrorView::Encode(s) => "clipboard image encode failed: "@ + s,
            ErrorView::Limit(s) => "clipboard image exceeds limit: "@ + s,
        }
    }
}

impl ClipboardImageError {
    pub fn message(&self) -> (r: String)
        ensures
            r@ == self@.text(),
    {
        match self {
            ClipboardImageError::ClipboardUnavailable(s) => text::cat2(
                "clipboard unavailable: ",
                s.as_str(),
            ),
            ClipboardImageError::NoImage(s) => text::cat2(
                "no usable image on clipboard: ",
                s.as_str(),
            ),
            ClipboardImageError::InvalidSource(s) => text::cat2(
                "clipboard image source is invalid: ",
                s.as_str(),
            ),
            ClipboardImageError::UnsupportedFormat => {
                "clipboard image format is unsupported".to_owned()
            },
            ClipboardImageError::Decode(s) => text::cat2(
                "clipboard image decode failed: ",
                s.as_str(),
            ),
            ClipboardImageError::Encode(s) => text::cat2(
                "clipboard image encode failed: ",
                s.as_str(),
            ),
            ClipboardImageError::Limit(s) => text::cat2("clipboard image exceeds limit: ", s),
        }
    }
}

/// A result, as mathematical values.
pub open spec fn outcome(r: Result<ClipboardImage, ClipboardImageError>) -> Result<
    ImageView,
    ErrorView,
> {
    match r {
        Ok(i) => Ok(i@),
        Err(e) => Err(e@),
    }
}

pub open spec fn verdict(r: Result<(), ClipboardImageError>) -> Result<(), ErrorView> {
    match r {
        Ok(_) => Ok(()),
        Err(e) => Err(e@),
    }
}

/// Whether a size is accepted, and why it is not.
pub open spec fn size_verdict(width: u32, height: u32) -> Result<(), ErrorView> {
    if width == 0 || height == 0 {
        Err(ErrorView::Limit("image dimensions must be greater than zero"@))
    } else if width > MAX_USER_IMAGE_DIMENSION || height > MAX_USER_IMAGE_DIMENSION {
        Err(ErrorView::Limit("image dimensions must not exceed 8000 pixels"@))
    } else if width * height > MAX_USER_IMAGE_PIXELS {
        Err(ErrorView::Limit("image must not exceed 32 million pixels"@))
    } else {
        Ok(())
    }
}

pub fn validate_dimensions(width: u32, height: u32) -> (r: Result<(), ClipboardImageError>)
    ensures
        verdict(r) == size_verdict(width, height),
{
    if width == 0 || height == 0 {
        return Err(ClipboardImageError::Limit("image dimensions must be greater than zero"));
    }
    if width > MAX_USER_IMAGE_DIMENSION || height > MAX_USER_IMAGE_DIMENSION {
        return Err(ClipboardImageError::Limit("image dimensions must not exceed 8000 pixels"));
    }
    assert(width * height <= 8_000 * 8_000) by (nonlinear_arith)
        requires
            width <= 8_000,
            height <= 8_000,
    ;
    let pixels: u64 = width as u64 * height as u64;
    if pixels > MAX_USER_IMAGE_PIXELS {
        return Err(ClipboardImageError::Limit("image must not exceed 32 million pixels"));
    }
    Ok(())
}

pub fn validate_encoded_png_size(size: usize) -> (r: Result<(), ClipboardImageError>)
    ensures
        verdict(r) == png_verdict(size as nat),
{
    if size > MAX_USER_IMAGE_PNG_BYTES {
        Err(ClipboardImageError::Limit("normalized PNG must be at most 10 MiB"))
    } else {
        Ok(())
    }
}

pub open spec fn png_verdict(size: nat) -> Result<(), ErrorView> {
    if size > MAX_USER_IMAGE_PNG_BYTES {
        Err(ErrorView::Limit("normalized PNG must be at most 10 MiB"@))
    } else {
        Ok(())
    }
}

/// The formats that are accepted.
#[derive(Debug, Clone, Copy, PartialEq, Eq, Structural)]
pub enum SourceFormat {
    Png,
    Jpeg,
    Gif,
    WebP,
}

/// A picture that has been drawn anew: its size, and its PNG if it could be written.
#[derive(Debug, PartialEq, Eq)]
pub struct Redrawn {
    pub width: u32,
    pub height: u32,
    pub png: Result<Vec<u8>, String>,
}

/// A picture that has been drawn anew.
pub struct RedrawnView {
    pub width: u32,
    pub height: u32,
    pub png: Result<Seq<u8>, Seq<char>>,
}

impl View for Redrawn {
    type V = RedrawnView;

    open spec fn view(&self) -> RedrawnView {
        RedrawnView {
            width: self.width,
            height: self.height,
            png: match self.png {
                Ok(v) => Ok(v@),
                Err(e) => Err(e@),
            },
        }
    }
}

/// The format of a picture as its first bytes show it: none where it is one that is not
/// accepted, an error where it is not known.
pub uninterp spec fn guessed_format(bytes: Seq<u8>) -> Result<Option<SourceFormat>, Seq<char>>;

pub open spec fn guess_view(r: Result<Option<SourceFormat>, String>) -> Result<
    Option<SourceFormat>,
    Seq<char>,
> {
    match r {
        Ok(f) => Ok(f),
        Err(e) => Err(e@),
    }
}

/// `image::guess_format`: the format, or the error as it is shown. It goes by the bytes alone.
#[verifier::external_body]
fn guess_format(bytes: &Vec<u8>) -> (r: Result<Option<SourceFormat>, String>)
    ensures
        guess_view(r) == guessed_format(bytes@),
{
    match image::guess_format(bytes) {
        Ok(ImageFormat::Png) => Ok(Some(SourceFormat::Png)),
        Ok(ImageFormat::Jpeg) => Ok(Some(SourceFormat::Jpeg)),
        Ok(ImageFormat::Gif) => Ok(Some(SourceFormat::Gif)),
        Ok(ImageFormat::WebP) => Ok(Some(SourceFormat::WebP)),
        Ok(_) => Ok(None),
        Err(error) => Err(error.to_string()),
    }
}

/// The size of a picture in a format, as its head says it.
pub uninterp spec fn head_dimensions(bytes: Seq<u8>, format: SourceFormat) -> Result<
    (u32, u32),
    Seq<char>,
>;

pub open spec fn size_view(r: Result<(u32, u32), String>) -> Result<(u32, u32), Seq<char>> {
    match r {
        Ok(d) => Ok(d),
        Err(e) => Err(e@),
    }
}

/// `image::ImageReader::into_dimensions` of a reader with the given format: the size, or the
/// error as it is shown. It goes by the bytes and the format alone.
#[verifier::external_body]
fn read_dimensions(bytes: &Vec<u8>, format: SourceFormat) -> (r: Result<(u32, u32), String>)
    ensures
        size_view(r) == head_dimensions(bytes@, format),
{
    let format = match format {
        SourceFormat::Png => ImageFormat::Png,
        SourceFormat::Jpeg => ImageFormat::Jpeg,
        SourceFormat::Gif => ImageFormat::Gif,
        SourceFormat::WebP => ImageFormat::WebP,
    };
    ImageReader::with_format(Cursor::new(bytes), format).into_dimensions().map_err(|e| e.to_string())
}

/// A still picture drawn anew, or why it cannot be read.
pub uninterp spec fn still_redrawn(bytes: Seq<u8>, format: SourceFormat) -> Result<
    RedrawnView,
    Seq<char>,
>;

pub open spec fn redrawn_view(r: Result<Redrawn, String>) -> Result<RedrawnView, Seq<char>> {
    match r {
        Ok(d) => Ok(d@),
        Err(e) => Err(e@),
    }
}

/// `image::load_from_memory_with_format`, and `DynamicImage::dimensions` and
/// `DynamicImage::write_to` as a PNG of what it gives. The result goes by the bytes and the
/// format alone.
#[verifier::external_body]
fn redraw_still(bytes: &Vec<u8>, format: SourceFormat) -> (r: Result<Redrawn, String>)
    ensures
        redrawn_view(r) == still_redrawn(bytes@, format),
{
    let format = match format {
        SourceFormat::Png => ImageFormat::Png,
        SourceFormat::Jpeg => ImageFormat::Jpeg,
        SourceFormat::Gif => ImageFormat::Gif,
        SourceFormat::WebP => ImageFormat::WebP,
    };
    let image = image::load_from_memory_with_format(bytes, format).map_err(|e| e.to_string())?;
    let (width, height) = image.dimensions();
    let mut png = Cursor::new(Vec::new());
    let written = image.write_to(&mut png, ImageFormat::Png);
    Ok(Redrawn { width, height, png: written.map(|_| png.into_inner()).map_err(|e| e.to_string()) })
}

/// The first frame of a GIF drawn anew; none where it has no frames, an error where it
/// cannot be read.
pub uninterp spec fn first_frame_redrawn(bytes: Seq<u8>) -> Result<Option<RedrawnView>, Seq<char>>;

pub open spec fn frame_view(r: Result<Option<Redrawn>, String>) -> Result<
    Option<RedrawnView>,
    Seq<char>,
> {
    match r {
        Ok(Some(d)) => Ok(Some(d@)),
        Ok(None) => Ok(None),
        Err(e) => Err(e@),
    }
}

/// The first of `GifDecoder::into_frames`, and `DynamicImage::dimensions` and
/// `DynamicImage::write_to` as a PNG of it. The result goes by the bytes alone.
#[verifier::external_body]
fn redraw_first_frame(bytes: &Vec<u8>) -> (r: Result<Option<Redrawn>, String>)
    ensures
        frame_view(r) == first_frame_redrawn(bytes@),
{
    let decoder = image::codecs::gif::GifDecoder::new(Cursor::new(bytes)).map_err(|e| e.to_string())?;
    let frame = match decoder.into_frames().next() {
        Some(frame) => frame.map_err(|e| e.to_string())?,
        None => return Ok(None),
    };
    let image = DynamicImage::ImageRgba8(frame.into_buffer());
    let (width, height) = image.dimensions();
    let mut png = Cursor::new(Vec::new());
    let written = image.write_to(&mut png, ImageFormat::Png);
    Ok(Some(Redrawn { width, height, png: written.map(|_| png.into_inner()).map_err(|e| e.to_string()) }))
}

/// Plain pixels drawn anew.
pub uninterp spec fn pixels_redrawn(width: u32, height: u32, bytes: Seq<u8>) -> Option<RedrawnView>;

pub open spec fn pixels_view(r: Option<Redrawn>) -> Option<RedrawnView> {
    match r {
        Some(d) => Some(d@),
        None => None,
    }
}

/// `RgbaImage::from_raw`, and `DynamicImage::dimensions` and `DynamicImage::write_to` as a
/// PNG of what it gives. The pixels are as many as the size asks for, so there is a picture,
/// and it has that size. The rest goes by the size and the pixels alone. Of more pixels than
/// that `from_raw` makes a picture which `write_to` panics on.
#[verifier::external_body]
fn redraw_pixels(width: u32, height: u32, bytes: Vec<u8>) -> (r: Option<Redrawn>)
    requires
        bytes@.len() == width * height * 4,
    ensures
        pixels_view(r) == pixels_redrawn(width, height, bytes@),
        r is Some,
        r->0.width == width,
        r->0.height == height,
{
    let image = DynamicImage::ImageRgba8(RgbaImage::from_raw(width, height, bytes)?);
    let (width, height) = image.dimensions();
    let mut png = Cursor::new(Vec::new());
    let written = image.write_to(&mut png, ImageFormat::Png);
    Some(Redrawn { width, height, png: written.map(|_| png.into_inner()).map_err(|e| e.to_string()) })
}

/// A picture that was drawn anew, if it keeps to the limits.
pub open spec fn kept(d: RedrawnView) -> Result<ImageView, ErrorView> {
    match size_verdict(d.width, d.height) {
        Err(e) => Err(e),
        Ok(_) => match d.png {
            Err(e) => Err(ErrorView::Encode(e)),
            Ok(png) => match png_verdict(png.len()) {
                Err(e) => Err(e),
                Ok(_) => Ok(ImageView { png, width: d.width, height: d.height }),
            },
        },
    }
}

/// Takes a picture that was drawn anew, if it keeps to the limits.
pub fn normalize_dynamic_image(d: Redrawn) -> (r: Result<ClipboardImage, ClipboardImageError>)
    ensures
        outcome(r) == kept(d@),
{
    match validate_dimensions(d.width, d.height) {
        Err(e) => {
            return Err(e);
        },
        Ok(_) => {},
    }
    let png_bytes = match d.png {
        Err(e) => {
            return Err(ClipboardImageError::Encode(e));
        },
        Ok(png) => png,
    };
    match validate_encoded_png_size(png_bytes.len()) {
        Err(e) => Err(e),
        Ok(_) => Ok(ClipboardImage { png_bytes, width: d.width, height: d.height }),
    }
}

/// What becomes of a picture of an accepted format whose head has been read.
pub open spec fn decoded(format: SourceFormat, bytes: Seq<u8>) -> Result<ImageView, ErrorView> {
    if format == SourceFormat::Gif {
        match first_frame_redrawn(bytes) {
            Err(e) => Err(ErrorView::Decode(e)),
            Ok(None) => Err(ErrorView::Decode("GIF contains no frames"@)),
            Ok(Some(d)) => kept(d),
        }
    } else {
        match still_redrawn(bytes, format) {
            Err(e) => Err(ErrorView::Decode(e)),
            Ok(d) => kept(d),
        }
    }
}

/// The format that a picture is read in, or why it is not read.
pub open spec fn accepted_format(guess: Result<Option<SourceFormat>, Seq<char>>) -> Result<
    SourceFormat,
    ErrorView,
> {
    match guess {
        Err(e) => Err(ErrorView::Decode(e)),
        Ok(None) => Err(ErrorView::UnsupportedFormat),
        Ok(Some(f)) => Ok(f),
    }
}

/// Takes a guess at a format, if it is one of those that are accepted.
pub fn accept_format(guess: Result<Option<SourceFormat>, String>) -> (r: Result<
    SourceFormat,
    ClipboardImageError,
>)
    ensures
        (match r {
            Ok(f) => Ok(f),
            Err(e) => Err(e@),
        }) == accepted_format(guess_view(guess)),
{
    match guess {
        Err(e) => Err(ClipboardImageError::Decode(e)),
        Ok(None) => Err(ClipboardImageError::UnsupportedFormat),
        Ok(Some(f)) => Ok(f),
    }
}

/// Whether the size in a picture's head is accepted, and why it is not.
pub open spec fn head_verdict(size: Result<(u32, u32), Seq<char>>) -> Result<(), ErrorView> {
    match size {
        Err(e) => Err(ErrorView::Decode(e)),
        Ok((width, height)) => size_verdict(width, height),
    }
}

/// Decides whether the size in a picture's head is accepted.
pub fn accept_head(size: Result<(u32, u32), String>) -> (r: Result<(), ClipboardImageError>)
    ensures
        verdict(r) == head_verdict(size_view(size)),
{
    match size {
        Err(e) => Err(ClipboardImageError::Decode(e)),
        Ok((width, height)) => validate_dimensions(width, height),
    }
}

/// Takes the first frame of a GIF that was drawn anew, if there is one.
pub fn accept_frame(frame: Result<Option<Redrawn>, String>) -> (r: Result<
    ClipboardImage,
    ClipboardImageError,
>)
    ensures
        outcome(r) == (match frame_view(frame) {
            Err(e) => Err(ErrorView::Decode(e)),
            Ok(None) => Err(ErrorView::Decode("GIF contains no frames"@)),
            Ok(Some(d)) => kept(d),
        }),
{
    match frame {
        Err(e) => Err(ClipboardImageError::Decode(e)),
        Ok(None) => Err(ClipboardImageError::Decode("GIF contains no frames".to_owned())),
        Ok(Some(d)) => normalize_dynamic_image(d),
    }
}

/// Takes a still picture that was drawn anew, if it could be read.
pub fn accept_still(still: Result<Redrawn, String>) -> (r: Result<
    ClipboardImage,
    ClipboardImageError,
>)
    ensures
        outcome(r) == (match redrawn_view(still) {
            Err(e) => Err(ErrorView::Decode(e)),
            Ok(d) => kept(d),
        }),
{
    match still {
        Err(e) => Err(ClipboardImageError::Decode(e)),
        Ok(d) => normalize_dynamic_image(d),
    }
}

/// What becomes of a picture in some format. Too large a source, a format that is not
/// accepted, and too large a size are refused before anything is decoded.
pub open spec fn normalized_source(bytes: Seq<u8>) -> Result<ImageView, ErrorView> {
    if bytes.len() > MAX_CLIPBOARD_IMAGE_SOURCE_BYTES {
        Err(ErrorView::Limit("encoded source must be at most 20 MiB"@))
    } else {
        match accepted_format(guessed_format(bytes)) {
            Err(e) => Err(e),
            Ok(format) => match head_verdict(head_dimensions(bytes, format)) {
                Err(e) => Err(e),
                Ok(_) => decoded(format, bytes),
            },
        }
    }
}

pub fn normalize_encoded_image(bytes: &Vec<u8>) -> (r: Result<ClipboardImage, ClipboardImageError>)
    ensures
        outcome(r) == normalized_source(bytes@),
{
    if bytes.len() > MAX_CLIPBOARD_IMAGE_SOURCE_BYTES {
        return Err(ClipboardImageError::Limit("encoded source must be at most 20 MiB"));
    }
    let format = match accept_format(guess_format(bytes)) {
        Err(e) => {
            return Err(e);
        },
        Ok(f) => f,
    };
    match accept_head(read_dimensions(bytes, format)) {
        Err(e) => {
            return Err(e);
        },
        Ok(_) => {},
    }
    if format == SourceFormat::Gif {
        accept_frame(redraw_first_frame(bytes))
    } else {
        accept_still(redraw_still(bytes, format))
    }
}

/// What becomes of plain pixels.
pub open spec fn normalized_pixels(width: usize, height: usize, bytes: Seq<u8>) -> Result<
    ImageView,
    ErrorView,
> {
    if width > u32::MAX {
        Err(ErrorView::Limit("image width exceeds supported integer range"@))
    } else if height > u32::MAX {
        Err(ErrorView::Limit("image height exceeds supported integer range"@))
    } else {
        match size_verdict(width as u32, height as u32) {
            Err(e) => Err(e),
            Ok(_) => if bytes.len() != width * height * 4 {
                Err(
                    ErrorView::InvalidSource(
                        "RGBA buffer length does not match width and height"@,
                    ),
                )
            } else {
                kept(pixels_redrawn(width as u32, height as u32, bytes)->0)
            },
        }
    }
}

pub fn normalize_rgba(rgba: ClipboardRgba) -> (r: Result<ClipboardImage, ClipboardImageError>)
    ensures
        outcome(r) == normalized_pixels(rgba.width, rgba.height, rgba.bytes@),
{
    if rgba.width as u64 > u32::MAX as u64 {
        return Err(ClipboardImageError::Limit("image width exceeds supported integer range"));
    }
    if rgba.height as u64 > u32::MAX as u64 {
        return Err(ClipboardImageError::Limit("image height exceeds supported integer range"));
    }
    let width: u32 = rgba.width as u32;
    let height: u32 = rgba.height as u32;
    match validate_dimensions(width, height) {
        Err(e) => {
            return Err(e);
        },
        Ok(_) => {},
    }
    assert(width * height <= 8_000 * 8_000) by (nonlinear_arith)
        requires
            width <= 8_000,
            height <= 8_000,
    ;
    let pixels: usize = width as usize * height as usize;
    if rgba.bytes.len() != pixels * 4 {
        return Err(
            ClipboardImageError::InvalidSource(
                "RGBA buffer length does not match width and height".to_owned(),
            ),
        );
    }
    match redraw_pixels(width, height, rgba.bytes) {
        Some(d) => normalize_dynamic_image(d),
        None => Err(
            ClipboardImageError::InvalidSource("RGBA buffer layout is invalid".to_owned()),
        ),
    }
}

/// Whether a file may hold a picture, and why not.
pub open spec fn file_verdict(is_file: bool, len: u64) -> Result<(), ErrorView> {
    if !is_file {
        Err(ErrorView::InvalidSource("clipboard path is not a regular file"@))
    } else if len > MAX_CLIPBOARD_IMAGE_SOURCE_BYTES {
        Err(ErrorView::Limit("source file must be at most 20 MiB"@))
    } else {
        Ok(())
    }
}

/// Decides by what is known of a file whether it is read at all.
pub fn check_source_file(is_file: bool, len: u64) -> (r: Result<(), ClipboardImageError>)
    ensures
        verdict(r) == file_verdict(is_file, len),
{
    if !is_file {
        return Err(
            ClipboardImageError::InvalidSource("clipboard path is not a regular file".to_owned()),
        );
    }
    if len > MAX_CLIPBOARD_IMAGE_SOURCE_BYTES as u64 {
        return Err(ClipboardImageError::Limit("source file must be at most 20 MiB"));
    }
    Ok(())
}

/// What becomes of the bytes of a file, which may have grown since it was looked at.
pub open spec fn normalized_file(bytes: Seq<u8>) -> Result<ImageView, ErrorView> {
    if bytes.len() > MAX_CLIPBOARD_IMAGE_SOURCE_BYTES {
        Err(ErrorView::Limit("source file must be at most 20 MiB"@))
    } else {
        normalized_source(bytes)
    }
}

pub fn normalize_file_candidate(bytes: &Vec<u8>) -> (r: Result<ClipboardImage, ClipboardImageError>)
    ensures
        outcome(r) == normalized_file(bytes@),
{
    if bytes.len() > MAX_CLIPBOARD_IMAGE_SOURCE_BYTES {
        return Err(ClipboardImageError::Limit("source file must be at most 20 MiB"));
    }
    normalize_encoded_image(bytes)
}

/// The search for a picture: first in the files of the clipboard, one after the other, then
/// in its pixels.
#[derive(Debug, Clone, Copy, PartialEq, Eq, Structural)]
pub struct ImageSearch {
    pub files: usize,
    pub next: usize,
}

/// What has to be read next.
#[derive(Debug, Clone, Copy, PartialEq, Eq, Structural)]
pub enum ImageStep {
    ReadFile(usize),
    ReadPixels,
}

impl ImageSearch {
    pub fn new(files: usize) -> (r: ImageSearch)
        ensures
            r == (ImageSearch { files, next: 0 }),
    {
        ImageSearch { files, next: 0 }
    }

    pub open spec fn next_step(self) -> ImageStep {
        if self.next < self.files {
            ImageStep::ReadFile(self.next)
        } else {
            ImageStep::ReadPixels
        }
    }

    pub fn step(&self) -> (r: ImageStep)
        ensures
            r == self.next_step(),
    {
        if self.next < self.files {
            ImageStep::ReadFile(self.next)
        } else {
            ImageStep::ReadPixels
        }
    }

    /// Takes the bytes of a file, if they could be read. A picture ends the search; anything
    /// else leads on.
    pub fn file_read(&mut self, bytes: Result<Vec<u8>, ClipboardImageError>) -> (r: Option<
        ClipboardImage,
    >)
        requires
            old(self).next < old(self).files,
        ensures
            *final(self) == (ImageSearch { next: (old(self).next + 1) as usize, ..*old(self) }),
            match bytes {
                Ok(b) => match normalized_file(b@) {
                    Ok(image) => r is Some && r->0@ == image,
                    Err(_) => r is None,
                },
                Err(_) => r is None,
            },
    {
        self.next = self.next + 1;
        match bytes {
            Ok(b) => match normalize_file_candidate(&b) {
                Ok(image) => Some(image),
                Err(_) => None,
            },
            Err(_) => None,
        }
    }
}

/// Takes the pixels of the clipboard, where no file held a picture.
pub fn pixels_read(rgba: Result<ClipboardRgba, ClipboardImageError>) -> (r: Result<
    ClipboardImage,
    ClipboardImageError,
>)
    ensures
        outcome(r) == (match rgba {
            Ok(p) => normalized_pixels(p.width, p.height, p.bytes@),
            Err(e) => Err(e@),
        }),
{
    match rgba {
        Ok(p) => normalize_rgba(p),
        Err(e) => Err(e),
    }
}

/// Every file is read before the pixels are, each once.
pub proof fn files_come_before_pixels(s: ImageSearch)
    ensures
        s.next_step() is ReadPixels <==> s.next >= s.files,
        s.next_step() matches ImageStep::ReadFile(i) ==> i == s.next && i < s.files,
{
}

/// What is accepted keeps to every limit.
pub proof fn accepted_pictures_keep_to_the_limits(d: RedrawnView)
    requires
        kept(d) is Ok,
    ensures
        0 < kept(d)->Ok_0.width <= MAX_USER_IMAGE_DIMENSION,
        0 < kept(d)->Ok_0.height <= MAX_USER_IMAGE_DIMENSION,
        kept(d)->Ok_0.width * kept(d)->Ok_0.height <= MAX_USER_IMAGE_PIXELS,
        kept(d)->Ok_0.png.len() <= MAX_USER_IMAGE_PNG_BYTES,
{
}

/// A size is accepted if and only if neither side is nought or longer than 8000 pixels and there
/// are no more than 32 million of them in all; width and height count alike.
pub proof fn sizes_are_accepted_within_the_limits(width: u32, height: u32)
    ensures
        size_verdict(width, height) is Ok <==> 0 < width <= 8_000 && 0 < height <= 8_000 && width
            * height <= 32_000_000,
        size_verdict(width, height) == size_verdict(height, width),
        size_verdict(width, height) is Err ==> size_verdict(width, height)->Err_0 is Limit,
{
    assert(width * height == height * width) by (nonlinear_arith);
}

/// A picture that is kept is the one that was drawn, with its size; one within the limits that
/// could be written is kept.
pub proof fn pictures_are_kept_as_they_were_drawn(d: RedrawnView)
    ensures
        kept(d) matches Ok(image) ==> d.png == Ok::<Seq<u8>, Seq<char>>(image.png) && image.width
            == d.width && image.height == d.height,
        kept(d) is Ok <==> d.png is Ok && d.png->Ok_0.len() <= 10_485_760 && 0 < d.width <= 8_000
            && 0 < d.height <= 8_000 && d.width * d.height <= 32_000_000,
{
    sizes_are_accepted_within_the_limits(d.width, d.height);
}

/// A file may hold a picture if and only if it is one and not too large; too large a source is
/// refused whatever it holds, and what comes of a file is what comes of its bytes.
pub proof fn sources_are_refused_when_too_large(is_file: bool, len: u64, bytes: Seq<u8>)
    ensures
        file_verdict(is_file, len) is Ok <==> is_file && len <= 20_971_520,
        bytes.len() > 20_971_520 ==> normalized_source(bytes) is Err && normalized_file(
            bytes,
        ) is Err,
        bytes.len() <= 20_971_520 ==> normalized_file(bytes) == normalized_source(bytes),
{
}

/// A picture whose format is not accepted, whose head cannot be read or says too large a size is
/// refused; what is accepted was drawn from its bytes in the format that they show, the first
/// frame where that is a GIF.
pub proof fn pictures_come_from_their_bytes(bytes: Seq<u8>)
    ensures
        normalized_source(bytes) matches Ok(image) ==> {
            &&& guessed_format(bytes) is Ok && guessed_format(bytes)->Ok_0 is Some
            &&& head_dimensions(bytes, guessed_format(bytes)->Ok_0->0) is Ok
            &&& guessed_format(bytes)->Ok_0->0 == SourceFormat::Gif ==> first_frame_redrawn(
                bytes,
            ) is Ok && first_frame_redrawn(bytes)->Ok_0 is Some
                && first_frame_redrawn(bytes)->Ok_0->0.png == Ok::<Seq<u8>, Seq<char>>(image.png)
            &&& guessed_format(bytes)->Ok_0->0 != SourceFormat::Gif ==> still_redrawn(
                bytes,
                guessed_format(bytes)->Ok_0->0,
            ) is Ok && still_redrawn(bytes, guessed_format(bytes)->Ok_0->0)->Ok_0.png
                == Ok::<Seq<u8>, Seq<char>>(image.png)
        },
{
}

/// Pixels make a picture only where there are four bytes for each.
pub proof fn pixels_are_four_bytes_each(width: usize, height: usize, bytes: Seq<u8>)
    ensures
        normalized_pixels(width, height, bytes) is Ok ==> bytes.len() == 4 * (width * height) && 0
            < width <= 8_000 && 0 < height <= 8_000,
{
    if width <= u32::MAX && height <= u32::MAX {
        sizes_are_accepted_within_the_limits(width as u32, height as u32);
    }
}

} // verus!
