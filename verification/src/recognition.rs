//! Reading text from a finished canvas with the `ocrs` engine: what the
//! engine is handed, and what becomes of the lines it reads.
//!
//! The engine is not verified here. Each call into it is a small function
//! of its own whose contract states what was taken from its source;
//! everything around those calls is verified. The calls that run a model,
//! or work on what a model returned, are not made here: what a model
//! returns cannot be known beforehand, and the engine may unwind on it.
//! The caller makes them between the steps of this module:
//! `prepare_canvas`, then the engine's word detection and line grouping,
//! then `lines_with_words`, then the engine's recognition, then
//! `shown_lines`.

use vstd::prelude::*;
use crate::canvas::RasterCanvas;

verus! {

/// `anyhow::Error`, the error that the engine's calls return.
#[verifier::external_type_specification]
#[verifier::external_body]
pub struct ExEngineError(anyhow::Error);

/// `ocrs::OcrEngine`, the engine with its models.
#[verifier::external_type_specification]
#[verifier::external_body]
pub struct ExOcrEngine(ocrs::OcrEngine);

/// `ocrs::OcrInput`, an image prepared for the engine.
#[verifier::external_type_specification]
#[verifier::external_body]
pub struct ExOcrInput(ocrs::OcrInput);

/// `ocrs::ImageSource`, a view of pixels that the engine can prepare.
#[verifier::external_type_specification]
#[verifier::external_body]
pub struct ExImageSource<'a>(ocrs::ImageSource<'a>);

/// `ocrs::ImageSourceError`, why pixels were not accepted as an image.
#[verifier::external_type_specification]
#[verifier::external_body]
pub struct ExImageSourceError(ocrs::ImageSourceError);

/// `ocrs::TextLine`, a line of recognized characters.
#[verifier::external_type_specification]
#[verifier::external_body]
pub struct ExTextLine(ocrs::TextLine);

/// `rten_imageproc::RotatedRect`, the oriented rectangle around a word.
#[verifier::external_type_specification]
#[verifier::external_body]
pub struct ExRotatedRect(rten_imageproc::RotatedRect);

/// The bytes that an `ocrs::ImageSource` views, in the order in which
/// `ocrs::ImageSource::from_bytes` was given them.
pub uninterp spec fn source_pixels(source: ocrs::ImageSource) -> Seq<u8>;

/// The width in pixels that an `ocrs::ImageSource` was made with.
pub uninterp spec fn source_width(source: ocrs::ImageSource) -> int;

/// The height in pixels that an `ocrs::ImageSource` was made with.
pub uninterp spec fn source_height(source: ocrs::ImageSource) -> int;

/// The grey values of the image that an `ocrs::OcrInput` holds, row by row,
/// as the bytes they were prepared from.
pub uninterp spec fn input_pixels(input: ocrs::OcrInput) -> Seq<u8>;

/// The width in pixels of the image that an `ocrs::OcrInput` holds.
pub uninterp spec fn input_width(input: ocrs::OcrInput) -> int;

/// The height in pixels of the image that an `ocrs::OcrInput` holds.
pub uninterp spec fn input_height(input: ocrs::OcrInput) -> int;

/// Why a canvas was not prepared for the engine.
#[derive(Debug)]
pub enum PrepareError {
    /// The engine does not take the canvas as an image; its reason is
    /// handed on.
    Image(ocrs::ImageSourceError),
    /// The engine failed to prepare the image; its error is handed on.
    Engine(anyhow::Error),
}

/// The characters of a recognized line, in order: what `to_string` writes
/// for an `ocrs::TextLine`.
pub uninterp spec fn line_chars(line: ocrs::TextLine) -> Seq<char>;

/// Whether a recognized line is shown: the recognizer read something there,
/// and it is more than one character. A single character is taken for
/// noise, whatever it is.
pub open spec fn is_surfaced(text: Option<Seq<char>>) -> bool {
    match text {
        Some(chars) => chars.len() > 1,
        None => false,
    }
}

/// The texts that are shown, in the order in which they were read: one
/// entry per line region goes in, `None` where nothing was read.
pub open spec fn surfaced(texts: Seq<Option<Seq<char>>>) -> Seq<Seq<char>>
    decreases texts.len(),
{
    if texts.len() == 0 {
        Seq::empty()
    } else if is_surfaced(texts.last()) {
        surfaced(texts.drop_last()).push(texts.last().unwrap())
    } else {
        surfaced(texts.drop_last())
    }
}

/// The characters of each string.
pub open spec fn texts_of(strings: Seq<String>) -> Seq<Seq<char>> {
    Seq::new(strings.len(), |i: int| strings[i]@)
}

/// The characters of each line that was read, `None` where none was.
pub open spec fn read_texts(lines: Seq<Option<String>>) -> Seq<Option<Seq<char>>> {
    Seq::new(
        lines.len(),
        |i: int|
            match lines[i] {
                Some(text) => Some(text@),
                None => None,
            },
    )
}

/// The characters of each line that the engine recognized, `None` where it
/// found no text.
pub open spec fn recognized_texts(lines: Seq<Option<ocrs::TextLine>>) -> Seq<Option<Seq<char>>> {
    Seq::new(
        lines.len(),
        |i: int|
            match lines[i] {
                Some(line) => Some(line_chars(line)),
                None => None,
            },
    )
}

/// The lines that hold a word, in the order in which they came.
pub open spec fn with_words(lines: Seq<Vec<rten_imageproc::RotatedRect>>) -> Seq<
    Vec<rten_imageproc::RotatedRect>,
>
    decreases lines.len(),
{
    if lines.len() == 0 {
        Seq::empty()
    } else if lines.last()@.len() > 0 {
        with_words(lines.drop_last()).push(lines.last())
    } else {
        with_words(lines.drop_last())
    }
}

/// Calls `ocrs::ImageSource::from_bytes` on pixels in row-major order with
/// the channels of a pixel side by side. It multiplies the two sides as
/// `u32`, so their product has to fit. It accepts the pixels where the image
/// has an area and the data holds one, three or four channels of it. The
/// source is then a view of those pixels with those sides.
#[verifier::external_body]
fn image_source(pixels: &[u8], width: u32, height: u32) -> (r: Result<
    ocrs::ImageSource,
    ocrs::ImageSourceError,
>)
    requires
        width * height <= u32::MAX,
    ensures
        r.is_ok() == (width * height > 0 && (pixels@.len() == width * height || pixels@.len() == 3
            * (width * height) || pixels@.len() == 4 * (width * height))),
        r.is_ok() ==> source_pixels(r.unwrap()) == pixels@ && source_width(r.unwrap()) == width
            && source_height(r.unwrap()) == height,
{
    ocrs::ImageSource::from_bytes(pixels, (width, height))
}

/// Calls `ocrs::OcrEngine::prepare_input`, which turns the pixels into the
/// engine's own form. It runs no model and returns `Ok` for every image
/// source. The image keeps the source's sides; where the source has one
/// channel, each grey value is made of the byte at its place and of nothing
/// else (a source of more channels is greyed).
#[verifier::external_body]
fn prepare_input(engine: &ocrs::OcrEngine, source: ocrs::ImageSource) -> (r: Result<
    ocrs::OcrInput,
    anyhow::Error,
>)
    ensures
        r.is_ok(),
        input_width(r.unwrap()) == source_width(source),
        input_height(r.unwrap()) == source_height(source),
        source_pixels(source).len() == source_width(source) * source_height(source)
            ==> input_pixels(r.unwrap()) == source_pixels(source),
{
    engine.prepare_input(source)
}

/// Calls `to_string` on an `ocrs::TextLine`, which writes out the line's
/// characters one after the other.
#[verifier::external_body]
fn line_text(line: &ocrs::TextLine) -> (text: String)
    ensures
        text@ == line_chars(*line),
{
    line.to_string()
}

/// Whether a text is too short to be shown: it has one character or none.
pub fn is_noise(text: &str) -> (noise: bool)
    ensures
        noise == (text@.len() <= 1),
{
    text.unicode_len() <= 1
}

/// Picks the lines to show from what the recognizer read: one entry per
/// line region, `None` where nothing was read.
pub fn surfaced_lines(lines: &Vec<Option<String>>) -> (shown: Vec<String>)
    ensures
        texts_of(shown@) == surfaced(read_texts(lines@)),
        forall|i: int| 0 <= i < shown@.len() ==> (#[trigger] shown@[i])@.len() > 1,
{
    let n: usize = lines.len();
    let mut shown: Vec<String> = Vec::new();
    let mut k: usize = 0;
    assert(texts_of(shown@) =~= surfaced(read_texts(lines@.take(0))));
    while k < n
        invariant
            k <= n,
            n == lines@.len(),
            texts_of(shown@) == surfaced(read_texts(lines@.take(k as int))),
            forall|i: int| 0 <= i < shown@.len() ==> (#[trigger] shown@[i])@.len() > 1,
        decreases n - k,
    {
        let ghost before = shown@;
        proof {
            let next = read_texts(lines@.take(k + 1));
            assert(next.drop_last() =~= read_texts(lines@.take(k as int)));
            assert(lines@.take(k + 1)[k as int] == lines@[k as int]);
        }
        match &lines[k] {
            Some(text) => {
                if !is_noise(text.as_str()) {
                    shown.push(text.clone());
                    assert(texts_of(shown@) =~= texts_of(before).push(text@));
                }
            },
            None => {},
        }
        k = k + 1;
    }
    proof {
        assert(lines@.take(n as int) =~= lines@);
    }
    shown
}

/// Passes over the lines without words, and keeps the others in their
/// order: a line without words holds nothing to read, and the engine's
/// recognition does not take one.
pub fn lines_with_words(lines: Vec<Vec<rten_imageproc::RotatedRect>>) -> (kept: Vec<
    Vec<rten_imageproc::RotatedRect>,
>)
    ensures
        kept@ == with_words(lines@),
        forall|i: int| 0 <= i < kept@.len() ==> (#[trigger] kept@[i])@.len() > 0,
{
    let ghost all = lines@;
    let mut kept: Vec<Vec<rten_imageproc::RotatedRect>> = Vec::new();
    for line in it: lines
        invariant
            it.seq() == all,
            kept@ == with_words(all.take(it.index() as int)),
            forall|i: int| 0 <= i < kept@.len() ==> (#[trigger] kept@[i])@.len() > 0,
    {
        proof {
            let k = it.index() as int;
            assert(all.take(k + 1).drop_last() =~= all.take(k));
            assert(all.take(k + 1).last() == line);
        }
        if line.len() > 0 {
            kept.push(line);
        }
    }
    proof {
        assert(all.take(all.len() as int) =~= all);
    }
    kept
}

/// Hands the canvas to the engine as an image of `cols()` by `rows()`
/// pixels with ink at full intensity on a dark ground, and has the engine
/// prepare it. A canvas without cells is no image; the engine's refusal of
/// it is handed on.
pub fn prepare_canvas(engine: &ocrs::OcrEngine, canvas: &RasterCanvas) -> (r: Result<
    ocrs::OcrInput,
    PrepareError,
>)
    requires
        canvas.wf(),
    ensures
        match r {
            Ok(input) => {
                &&& canvas.rows() * canvas.cols() > 0
                &&& input_pixels(input) == canvas.shaded(255, 0)
                &&& input_width(input) == canvas.cols()
                &&& input_height(input) == canvas.rows()
            },
            Err(PrepareError::Image(_)) => canvas.rows() * canvas.cols() == 0,
            Err(PrepareError::Engine(_)) => false,
        },
{
    let pixels: Vec<u8> = canvas.pixels(255, 0);
    let width: u32 = canvas.width() as u32;
    let height: u32 = canvas.height() as u32;
    proof {
        canvas.lemma_within_limits();
        assert(width * height == canvas.rows() * canvas.cols()) by (nonlinear_arith)
            requires
                width == canvas.cols(),
                height == canvas.rows(),
        ;
    }
    match image_source(pixels.as_slice(), width, height) {
        Ok(source) => match prepare_input(engine, source) {
            Ok(input) => Ok(input),
            Err(e) => Err(PrepareError::Engine(e)),
        },
        Err(e) => Err(PrepareError::Image(e)),
    }
}

/// Picks the lines to show from what the engine recognized: one entry per
/// line that was read, `None` where it found no text.
pub fn shown_lines(recognized: &Vec<Option<ocrs::TextLine>>) -> (shown: Vec<String>)
    ensures
        texts_of(shown@) == surfaced(recognized_texts(recognized@)),
        forall|i: int| 0 <= i < shown@.len() ==> (#[trigger] shown@[i])@.len() > 1,
{
    let texts: Vec<Option<String>> = line_texts(recognized);
    surfaced_lines(&texts)
}

/// Only what was read is shown, in the order in which it was read, and
/// nothing of one character or none: every text that is shown is one of the
/// texts that went in, and no more come out than went in.
pub proof fn lemma_surfaced_is_a_selection(texts: Seq<Option<Seq<char>>>, i: int)
    requires
        0 <= i < surfaced(texts).len(),
    ensures
        surfaced(texts).len() <= texts.len(),
        surfaced(texts)[i].len() > 1,
        texts.contains(Some(surfaced(texts)[i])),
    decreases texts.len(),
{
    if texts.len() > 0 {
        let rest = texts.drop_last();
        lemma_surfaced_is_no_longer(rest);
        if i < surfaced(rest).len() {
            lemma_surfaced_is_a_selection(rest, i);
            let j = choose|j: int| 0 <= j < rest.len() && rest[j] == Some(surfaced(rest)[i]);
            assert(texts[j] == rest[j]);
        } else {
            assert(texts[texts.len() - 1] == texts.last());
        }
    }
}

/// No more texts are shown than were read.
pub proof fn lemma_surfaced_is_no_longer(texts: Seq<Option<Seq<char>>>)
    ensures
        surfaced(texts).len() <= texts.len(),
    decreases texts.len(),
{
    if texts.len() > 0 {
        lemma_surfaced_is_no_longer(texts.drop_last());
    }
}

/// The text of each recognized line, `None` where nothing was read.
fn line_texts(recognized: &Vec<Option<ocrs::TextLine>>) -> (texts: Vec<Option<String>>)
    ensures
        read_texts(texts@) == recognized_texts(recognized@),
{
    let n: usize = recognized.len();
    let mut texts: Vec<Option<String>> = Vec::new();
    let mut k: usize = 0;
    while k < n
        invariant
            k <= n,
            n == recognized@.len(),
            texts@.len() == k,
            forall|i: int|
                0 <= i < k ==> (#[trigger] read_texts(texts@)[i]) == recognized_texts(
                    recognized@,
                )[i],
        decreases n - k,
    {
        let text: Option<String> = match &recognized[k] {
            Some(line) => Some(line_text(line)),
            None => None,
        };
        let ghost before = texts@;
        texts.push(text);
        proof {
            assert forall|i: int| 0 <= i < k + 1 implies (#[trigger] read_texts(texts@)[i])
                == recognized_texts(recognized@)[i] by {
                if i < k {
                    assert(texts@[i] == before[i]);
                    assert(read_texts(before)[i] == recognized_texts(recognized@)[i]);
                }
            }
        }
        k = k + 1;
    }
    assert(read_texts(texts@) =~= recognized_texts(recognized@));
    texts
}

} // verus!
