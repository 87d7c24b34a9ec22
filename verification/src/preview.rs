//! Small pictures of media before they are downloaded: what is tried for one, in which
//! order, and what comes of it.

use base64::Engine;

use vstd::prelude::*;

use crate::headers;
use crate::headers::{FALLBACK_UA, has_agent, write_headers};
use crate::net;
use crate::net::RequestContext;
use crate::number;
use crate::number::dec_string;
use crate::pages;
use crate::pages::{is_pdf, url_ends_with, write_essence};
use crate::text;
use crate::text::{cat2, cat3, chars_of, contains, push_text, starts_with, string_of};

verus! {

/// The most that is read of an image, in bytes.
pub const MAX_IMAGE_BYTES: usize = 8_388_608;

/// The most that is read of a PDF, in bytes.
pub const MAX_PDF_BYTES: usize = 16_777_216;

/// The largest picture that is taken, in bytes.
pub const MAX_FRAME_BYTES: usize = 4_194_304;

/// The most that is read of the beginning of a file, in bytes.
pub const MAX_FFMPEG_INPUT_BYTES: usize = 3_145_728;

/// The most that is read of a file where its beginning is not enough, in bytes.
pub const MAX_PROGRESSIVE_FETCH_BYTES: usize = 67_108_864;

/// How long ffmpeg may take for a picture, in seconds.
pub const FFMPEG_TIMEOUT_SECS: u64 = 12;

/// How many pictures are made at the same time.
pub const FFMPEG_SLOTS: usize = 6;

// ---------------------------------------------------------------------------
// Pictures as addresses
// ---------------------------------------------------------------------------

/// The digits of base 64.
pub open spec fn base64_digits() -> Seq<char> {
    "ABCDEFGHIJKLMNOPQRSTUVWXYZabcdefghijklmnopqrstuvwxyz0123456789+/"@
}

/// Bytes in base 64: four digits for every three bytes, the last group filled up with
/// `=`.
pub open spec fn base64_text(b: Seq<u8>) -> Seq<char>
    decreases b.len(),
{
    let d = base64_digits();
    let x = b[0] as int;
    let y = b[1] as int;
    let z = b[2] as int;
    if b.len() == 0 {
        Seq::empty()
    } else if b.len() == 1 {
        seq![d[x / 4], d[x % 4 * 16], '=', '=']
    } else if b.len() == 2 {
        seq![d[x / 4], d[x % 4 * 16 + y / 16], d[y % 16 * 4], '=']
    } else {
        seq![d[x / 4], d[x % 4 * 16 + y / 16], d[y % 16 * 4 + z / 64], d[z % 64]] + base64_text(
            b.skip(3),
        )
    }
}

/// `encode` of the `base64` crate's `STANDARD` engine: the standard alphabet, filled up
/// with `=`. It panics where the length of the result does not fit, which is the case
/// for lengths in the top quarter of the range only.
#[verifier::external_body]
fn encode_base64(bytes: &[u8]) -> (r: String)
    requires
        bytes@.len() <= usize::MAX / 2,
    ensures
        r@ == base64_text(bytes@),
{
    base64::engine::general_purpose::STANDARD.encode(bytes)
}

/// The address that holds bytes of a type.
pub open spec fn data_address(mime: Seq<char>, bytes: Seq<u8>) -> Seq<char> {
    "data:"@ + mime + ";base64,"@ + base64_text(bytes)
}

/// Writes the address that holds bytes of a type.
pub fn data_url(mime: &str, bytes: &[u8]) -> (r: String)
    requires
        bytes@.len() <= usize::MAX / 2,
    ensures
        r@ == data_address(mime@, bytes@),
{
    let front = cat3("data:", mime, ";base64,");
    cat2(front.as_str(), encode_base64(bytes).as_str())
}

// ---------------------------------------------------------------------------
// What is tried
// ---------------------------------------------------------------------------

/// How a preview is shown.
#[derive(Clone, Copy, Debug, PartialEq, Eq, Structural)]
pub enum PreviewKind {
    Image,
    /// An image that is shown as a square.
    Square,
    Pdf,
    /// A picture of a video.
    Video,
}

impl PreviewKind {
    /// The name of the kind.
    pub open spec fn name(self) -> Seq<char> {
        match self {
            PreviewKind::Image => "image"@,
            PreviewKind::Square => "square"@,
            PreviewKind::Pdf => "pdf"@,
            PreviewKind::Video => "video"@,
        }
    }

    /// The name of the kind.
    pub fn as_str(self) -> (r: &'static str)
        ensures
            r@ == self.name(),
    {
        match self {
            PreviewKind::Image => "image",
            PreviewKind::Square => "square",
            PreviewKind::Pdf => "pdf",
            PreviewKind::Video => "video",
        }
    }
}

/// A preview.
#[derive(Debug)]
pub struct Preview {
    /// The picture, as an address that holds it.
    pub data_url: String,
    pub kind: PreviewKind,
}

impl Preview {
    /// A copy of the preview.
    pub fn copy(&self) -> (r: Self)
        ensures
            r == *self,
    {
        Preview { data_url: self.data_url.clone(), kind: self.kind }
    }
}

/// What is done next for a preview, and what is to be told of it.
#[derive(Debug)]
pub enum PreviewStep {
    /// The body is read as far as an image may go.
    ReadImage,
    /// The body is read as far as a PDF may go.
    ReadPdf,
    /// The beginning of the body is read.
    ReadBeginning,
    /// A picture is made of what was read of the beginning.
    DecodeBeginning,
    /// The media are requested anew, as a whole.
    RequestWhole,
    /// The body is read as far as media may go.
    ReadWhole,
    /// A picture is made of what was read; so many bytes.
    DecodeWhole(usize),
    /// The beginning of the stream is fetched, segment by segment.
    FetchSegments,
    /// A picture is made of the segments.
    DecodeSegments,
    /// ffmpeg opens the address by itself.
    OpenAddress,
    /// There is a preview, or a reason why there is none.
    Done(Result<Preview, String>),
}

/// The model of [`PreviewStep`].
pub enum StepView {
    ReadImage,
    ReadPdf,
    ReadBeginning,
    DecodeBeginning,
    RequestWhole,
    ReadWhole,
    DecodeWhole(usize),
    FetchSegments,
    DecodeSegments,
    OpenAddress,
    Done(Result<(Seq<char>, PreviewKind), Seq<char>>),
}

impl View for PreviewStep {
    type V = StepView;

    open spec fn view(&self) -> StepView {
        match self {
            PreviewStep::ReadImage => StepView::ReadImage,
            PreviewStep::ReadPdf => StepView::ReadPdf,
            PreviewStep::ReadBeginning => StepView::ReadBeginning,
            PreviewStep::DecodeBeginning => StepView::DecodeBeginning,
            PreviewStep::RequestWhole => StepView::RequestWhole,
            PreviewStep::ReadWhole => StepView::ReadWhole,
            PreviewStep::DecodeWhole(n) => StepView::DecodeWhole(*n),
            PreviewStep::FetchSegments => StepView::FetchSegments,
            PreviewStep::DecodeSegments => StepView::DecodeSegments,
            PreviewStep::OpenAddress => StepView::OpenAddress,
            PreviewStep::Done(Ok(p)) => StepView::Done(Ok((p.data_url@, p.kind))),
            PreviewStep::Done(Err(e)) => StepView::Done(Err(e@)),
        }
    }
}

/// A preview that is being made.
#[derive(Debug)]
pub struct PreviewRun {
    pub url: String,
    /// The type that the media were served as.
    pub content_type: String,
    /// Why the media could not be had so far.
    pub trouble: Option<String>,
    pub step: PreviewStep,
}

/// The model of [`PreviewRun`].
#[verifier::ext_equal]
pub struct RunView {
    pub url: Seq<char>,
    pub content_type: Seq<char>,
    pub trouble: Option<Seq<char>>,
    pub step: StepView,
}

impl View for PreviewRun {
    type V = RunView;

    open spec fn view(&self) -> RunView {
        RunView {
            url: self.url@,
            content_type: self.content_type@,
            trouble: text::opt(self.trouble),
            step: self.step@,
        }
    }
}

/// Whether a status is one of success.
pub open spec fn is_success(status: u16) -> bool {
    200 <= status < 300
}

/// The extensions of files from whose beginning a picture can be made.
pub open spec fn progressive_exts() -> Seq<Seq<char>> {
    seq![
        "mp4"@,
        "m4v"@,
        "m4a"@,
        "webm"@,
        "mkv"@,
        "mov"@,
        "ts"@,
        "mp3"@,
        "aac"@,
        "flac"@,
        "ogg"@,
        "opus"@,
        "wav"@,
        "avi"@,
        "flv"@,
    ]
}

/// Whether an address is that of a file that is served in one piece.
pub open spec fn is_progressive_url(url: Seq<char>) -> bool {
    exists|i: int|
        0 <= i < progressive_exts().len() && pages::has_extension(
            url,
            #[trigger] progressive_exts()[i],
        )
}

/// Whether media are one file that is served in one piece.
pub open spec fn is_progressive(content_type: Seq<char>, url: Seq<char>) -> bool {
    ||| text::has_prefix(content_type, "video/"@)
    ||| text::has_prefix(content_type, "audio/"@)
    ||| is_progressive_url(url)
}

/// Whether media are an HLS stream.
pub open spec fn is_stream(content_type: Seq<char>, url: Seq<char>) -> bool {
    pages::has_extension(url, "m3u8"@) || text::holds(content_type, "mpegurl"@)
}

/// What is told of a status that is not one of success.
pub open spec fn status_trouble(status: u16) -> Seq<char> {
    "media host returned HTTP "@ + number::dec(status as nat)
}

/// What follows where no file served in one piece gave a picture.
pub open spec fn after_file(content_type: Seq<char>, url: Seq<char>) -> StepView {
    if is_stream(content_type, url) {
        StepView::FetchSegments
    } else {
        StepView::OpenAddress
    }
}

/// The beginning of a preview: a request was answered with a status and a content type,
/// or not at all.
pub open spec fn begun(url: Seq<char>, answer: Option<(u16, Seq<char>)>) -> RunView {
    let usable = answer matches Some(a) && is_success(a.0);
    let content_type = match answer {
        Some((status, ct)) if is_success(status) => pages::essence(ct),
        _ => Seq::empty(),
    };
    RunView {
        url,
        content_type,
        trouble: match answer {
            None => Some("couldn't reach the media host"@),
            Some((status, _)) => if is_success(status) {
                None
            } else {
                Some(status_trouble(status))
            },
        },
        step: if usable && text::has_prefix(content_type, "image/"@) {
            StepView::ReadImage
        } else if usable && pages::serves_pdf(content_type, url) {
            StepView::ReadPdf
        } else if is_progressive(content_type, url) {
            if usable {
                StepView::ReadBeginning
            } else {
                StepView::RequestWhole
            }
        } else {
            after_file(content_type, url)
        },
    }
}

/// At most the first `cap` bytes.
pub open spec fn capped(body: Seq<u8>, cap: usize) -> Seq<u8> {
    if body.len() <= cap {
        body
    } else {
        body.take(cap as int)
    }
}

/// A run that goes on to another step.
pub open spec fn at_step(r: RunView, step: StepView) -> RunView {
    RunView { step, ..r }
}

/// A run that ran into trouble and goes on behind the files served in one piece.
pub open spec fn past_file(r: RunView, trouble: Seq<char>) -> RunView {
    RunView { trouble: Some(trouble), step: after_file(r.content_type, r.url), ..r }
}

/// What is read of a body at a step.
pub open spec fn body_cap(step: StepView) -> usize {
    match step {
        StepView::ReadImage => MAX_IMAGE_BYTES,
        StepView::ReadPdf => MAX_PDF_BYTES,
        StepView::ReadBeginning => MAX_FFMPEG_INPUT_BYTES,
        _ => MAX_PROGRESSIVE_FETCH_BYTES,
    }
}

/// The run once a body was read, or could not be.
pub open spec fn after_body(r: RunView, body: Option<Seq<u8>>) -> RunView {
    let b = match body {
        Some(b) => capped(b, body_cap(r.step)),
        None => Seq::empty(),
    };
    match r.step {
        StepView::ReadImage => at_step(
            r,
            StepView::Done(
                if b.len() > 0 {
                    Ok((data_address(r.content_type, b), PreviewKind::Image))
                } else {
                    Err("image body was empty"@)
                },
            ),
        ),
        StepView::ReadPdf => at_step(
            r,
            StepView::Done(
                if b.len() > 0 {
                    Ok((data_address("application/pdf"@, b), PreviewKind::Pdf))
                } else {
                    Err("PDF body was empty"@)
                },
            ),
        ),
        StepView::ReadBeginning => at_step(
            r,
            if b.len() > 0 {
                StepView::DecodeBeginning
            } else {
                StepView::RequestWhole
            },
        ),
        StepView::ReadWhole => if b.len() > 0 {
            at_step(r, StepView::DecodeWhole(b.len() as usize))
        } else {
            past_file(r, "media body was empty"@)
        },
        _ => r,
    }
}

/// The run once the media were requested as a whole: the status, or nothing.
pub open spec fn after_request(r: RunView, status: Option<u16>) -> RunView {
    match r.step {
        StepView::RequestWhole => match status {
            Some(s) => if is_success(s) {
                at_step(r, StepView::ReadWhole)
            } else {
                past_file(r, status_trouble(s))
            },
            None => past_file(r, "couldn't download the media for a thumbnail"@),
        },
        _ => r,
    }
}

/// The run once segments were fetched, or could not be.
pub open spec fn after_segments(r: RunView, fetched: bool) -> RunView {
    match r.step {
        StepView::FetchSegments => if fetched {
            at_step(r, StepView::DecodeSegments)
        } else {
            RunView {
                trouble: Some("could not fetch the HLS playlist / a segment"@),
                step: StepView::OpenAddress,
                ..r
            }
        },
        _ => r,
    }
}

/// The run once ffmpeg made a picture, or did not.
pub open spec fn after_frame(r: RunView, frame: Option<Seq<u8>>) -> RunView {
    let made = match frame {
        Some(f) if 0 < f.len() <= MAX_FRAME_BYTES => Some(f),
        _ => None,
    };
    match r.step {
        StepView::DecodeBeginning
        | StepView::DecodeWhole(_)
        | StepView::DecodeSegments
        | StepView::OpenAddress => match made {
            Some(f) => at_step(
                r,
                StepView::Done(Ok((data_address("image/jpeg"@, f), PreviewKind::Video))),
            ),
            None => match r.step {
                StepView::DecodeBeginning => at_step(r, StepView::RequestWhole),
                StepView::DecodeWhole(n) => past_file(
                    r,
                    "downloaded "@ + number::dec(n as nat / 1_048_576)
                        + " MB but ffmpeg found no decodable video"@,
                ),
                StepView::DecodeSegments => RunView {
                    trouble: Some("could not decode the first HLS segment"@),
                    step: StepView::OpenAddress,
                    ..r
                },
                _ => at_step(
                    r,
                    StepView::Done(
                        Err(
                            match r.trouble {
                                Some(t) => t,
                                None => "no decodable video frame in this source"@,
                            },
                        ),
                    ),
                ),
            },
        },
        _ => r,
    }
}

/// Tells whether an address is that of a file that is served in one piece.
pub fn progressive_url(url: &str) -> (r: bool)
    ensures
        r == is_progressive_url(url@),
{
    let list: Vec<&str> = vec![
        "mp4", "m4v", "m4a", "webm", "mkv", "mov", "ts", "mp3", "aac", "flac", "ogg", "opus", "wav",
        "avi", "flv",
    ];
    let ghost all = progressive_exts();
    assert(text::str_texts(list@) =~= all);
    let mut i: usize = 0;
    while i < list.len()
        invariant
            i <= list.len(),
            all == text::str_texts(list@),
            all == progressive_exts(),
            forall|j: int| 0 <= j < i ==> !pages::has_extension(url@, #[trigger] all[j]),
        decreases list.len() - i,
    {
        assert(all[i as int] == list@[i as int]@);
        if url_ends_with(url, list[i]) {
            return true;
        }
        i += 1;
    }
    false
}

fn step_after_file(content_type: &str, url: &str) -> (r: PreviewStep)
    ensures
        r@ == after_file(content_type@, url@),
{
    if url_ends_with(url, "m3u8") || contains(chars_of(content_type).as_slice(), "mpegurl") {
        PreviewStep::FetchSegments
    } else {
        PreviewStep::OpenAddress
    }
}

fn write_status_trouble(status: u16) -> (r: String)
    ensures
        r@ == status_trouble(status),
{
    cat2("media host returned HTTP ", dec_string(status as u64).as_str())
}

fn cut(body: Option<Vec<u8>>, cap: usize) -> (r: Vec<u8>)
    ensures
        r@ == (match body {
            Some(b) => capped(b@, cap),
            None => Seq::empty(),
        }),
        r@.len() <= cap,
{
    match body {
        Some(b) => {
            let mut b = b;
            if b.len() > cap {
                b.truncate(cap);
            }
            b
        },
        None => Vec::new(),
    }
}

impl PreviewRun {
    /// Begins a preview of media that were requested: with the status and the content
    /// type of the answer, or without an answer.
    pub fn begin(url: &str, answer: Option<(u16, &str)>) -> (r: Self)
        ensures
            r@ == begun(
                url@,
                match answer {
                    Some(a) => Some((a.0, a.1@)),
                    None => None,
                },
            ),
    {
        let mut usable = false;
        let mut content_type = String::new();
        assert(content_type@ =~= Seq::empty());
        let trouble = match answer {
            None => Some("couldn't reach the media host".to_string()),
            Some((status, ct)) => if status >= 200 && status < 300 {
                usable = true;
                content_type = string_of(write_essence(ct).as_slice());
                None
            } else {
                Some(write_status_trouble(status))
            },
        };
        let cs = chars_of(content_type.as_str());
        let ct = cs.as_slice();
        let step = if usable && starts_with(ct, "image/") {
            PreviewStep::ReadImage
        } else if usable && is_pdf(content_type.as_str(), url) {
            PreviewStep::ReadPdf
        } else if starts_with(ct, "video/") || starts_with(ct, "audio/") || progressive_url(url) {
            if usable {
                PreviewStep::ReadBeginning
            } else {
                PreviewStep::RequestWhole
            }
        } else {
            step_after_file(content_type.as_str(), url)
        };
        PreviewRun { url: url.to_string(), content_type, trouble, step }
    }

    fn skip_file(&mut self, trouble: String)
        ensures
            final(self)@ == past_file(old(self)@, trouble@),
    {
        self.step = step_after_file(self.content_type.as_str(), self.url.as_str());
        self.trouble = Some(trouble);
    }

    /// Goes on once a body was read as far as the step says, or could not be.
    pub fn body(&mut self, body: Option<Vec<u8>>)
        ensures
            final(self)@ == after_body(
                old(self)@,
                match body {
                    Some(b) => Some(b@),
                    None => None,
                },
            ),
    {
        match self.step {
            PreviewStep::ReadImage => {
                let b = cut(body, MAX_IMAGE_BYTES);
                self.step = PreviewStep::Done(
                    if b.len() > 0 {
                        Ok(
                            Preview {
                                data_url: data_url(self.content_type.as_str(), b.as_slice()),
                                kind: PreviewKind::Image,
                            },
                        )
                    } else {
                        Err("image body was empty".to_string())
                    },
                );
            },
            PreviewStep::ReadPdf => {
                let b = cut(body, MAX_PDF_BYTES);
                self.step = PreviewStep::Done(
                    if b.len() > 0 {
                        Ok(
                            Preview {
                                data_url: data_url("application/pdf", b.as_slice()),
                                kind: PreviewKind::Pdf,
                            },
                        )
                    } else {
                        Err("PDF body was empty".to_string())
                    },
                );
            },
            PreviewStep::ReadBeginning => {
                let b = cut(body, MAX_FFMPEG_INPUT_BYTES);
                self.step = if b.len() > 0 {
                    PreviewStep::DecodeBeginning
                } else {
                    PreviewStep::RequestWhole
                };
            },
            PreviewStep::ReadWhole => {
                let b = cut(body, MAX_PROGRESSIVE_FETCH_BYTES);
                if b.len() > 0 {
                    self.step = PreviewStep::DecodeWhole(b.len());
                } else {
                    self.skip_file("media body was empty".to_string());
                }
            },
            _ => {},
        }
    }

    /// Goes on once the media were requested as a whole: with the status of the answer,
    /// or without an answer.
    pub fn requested(&mut self, status: Option<u16>)
        ensures
            final(self)@ == after_request(old(self)@, status),
    {
        match self.step {
            PreviewStep::RequestWhole => match status {
                Some(s) => {
                    if s >= 200 && s < 300 {
                        self.step = PreviewStep::ReadWhole;
                    } else {
                        self.skip_file(write_status_trouble(s));
                    }
                },
                None => {
                    self.skip_file("couldn't download the media for a thumbnail".to_string());
                },
            },
            _ => {},
        }
    }

    /// Goes on once the beginning of a stream was fetched, or could not be.
    pub fn segments(&mut self, fetched: bool)
        ensures
            final(self)@ == after_segments(old(self)@, fetched),
    {
        match self.step {
            PreviewStep::FetchSegments => {
                if fetched {
                    self.step = PreviewStep::DecodeSegments;
                } else {
                    self.trouble = Some("could not fetch the HLS playlist / a segment".to_string());
                    self.step = PreviewStep::OpenAddress;
                }
            },
            _ => {},
        }
    }

    /// Goes on once ffmpeg made a picture, or did not. One that is empty or too large is
    /// none.
    pub fn frame(&mut self, frame: Option<Vec<u8>>)
        ensures
            final(self)@ == after_frame(
                old(self)@,
                match frame {
                    Some(f) => Some(f@),
                    None => None,
                },
            ),
    {
        let decodes = match self.step {
            PreviewStep::DecodeBeginning => true,
            PreviewStep::DecodeWhole(_) => true,
            PreviewStep::DecodeSegments => true,
            PreviewStep::OpenAddress => true,
            _ => false,
        };
        if !decodes {
            return;
        }
        match frame {
            Some(f) => {
                if f.len() > 0 && f.len() <= MAX_FRAME_BYTES {
                    self.step = PreviewStep::Done(
                        Ok(
                            Preview {
                                data_url: data_url("image/jpeg", f.as_slice()),
                                kind: PreviewKind::Video,
                            },
                        ),
                    );
                    return;
                }
            },
            None => {},
        }
        match self.step {
            PreviewStep::DecodeBeginning => {
                self.step = PreviewStep::RequestWhole;
            },
            PreviewStep::DecodeWhole(n) => {
                let mb = dec_string((n / 1_048_576) as u64);
                self.skip_file(
                    cat3("downloaded ", mb.as_str(), " MB but ffmpeg found no decodable video"),
                );
            },
            PreviewStep::DecodeSegments => {
                self.trouble = Some("could not decode the first HLS segment".to_string());
                self.step = PreviewStep::OpenAddress;
            },
            _ => {
                let reason = match &self.trouble {
                    Some(t) => t.clone(),
                    None => "no decodable video frame in this source".to_string(),
                };
                self.step = PreviewStep::Done(Err(reason));
            },
        }
    }
}

/// The type of an image that was fetched: as it was served, or JPEG where it was not
/// served as an image.
pub open spec fn image_type(content_type: Option<Seq<char>>) -> Seq<char> {
    match content_type {
        Some(ct) if text::has_prefix(pages::essence(ct), "image/"@) => pages::essence(ct),
        _ => "image/jpeg"@,
    }
}

/// The preview of a page: an image that was fetched, as a square where it is to be. None
/// where the answer was no success, or empty.
pub fn page_preview(
    status: u16,
    content_type: Option<&str>,
    body: Option<Vec<u8>>,
    square: bool,
) -> (r: Option<Preview>)
    ensures
        ({
            let b = match body {
                Some(b) => capped(b@, MAX_IMAGE_BYTES),
                None => Seq::empty(),
            };
            match r {
                Some(p) => {
                    &&& is_success(status)
                    &&& b.len() > 0
                    &&& p.data_url@ == data_address(image_type(text::opt_str(content_type)), b)
                    &&& p.kind == if square {
                        PreviewKind::Square
                    } else {
                        PreviewKind::Image
                    }
                },
                None => !is_success(status) || b.len() == 0,
            }
        }),
{
    if !(status >= 200 && status < 300) {
        return None;
    }
    let b = cut(body, MAX_IMAGE_BYTES);
    if b.len() == 0 {
        return None;
    }
    let mime = match content_type {
        Some(ct) => {
            let e = write_essence(ct);
            if starts_with(e.as_slice(), "image/") {
                string_of(e.as_slice())
            } else {
                "image/jpeg".to_string()
            }
        },
        None => "image/jpeg".to_string(),
    };
    let kind = if square {
        PreviewKind::Square
    } else {
        PreviewKind::Image
    };
    Some(Preview { data_url: data_url(mime.as_str(), b.as_slice()), kind })
}

// ---------------------------------------------------------------------------
// How ffmpeg is started for a picture
// ---------------------------------------------------------------------------

/// The arguments that ask for one small picture.
pub open spec fn frame_tail() -> Seq<Seq<char>> {
    seq![
        "-frames:v"@,
        "1"@,
        "-vf"@,
        "scale='min(400,iw)':-2"@,
        "-f"@,
        "image2"@,
        "-vcodec"@,
        "mjpeg"@,
        "-q:v"@,
        "4"@,
        "pipe:1"@,
    ]
}

/// The arguments that every run for a picture begins with.
pub open spec fn frame_head() -> Seq<Seq<char>> {
    seq!["-hide_banner"@, "-loglevel"@, "error"@, "-nostdin"@]
}

fn push_all(args: &mut Vec<String>, list: &Vec<&str>)
    ensures
        text::texts(final(args)@) == text::texts(old(args)@) + text::str_texts(list@),
{
    let ghost before = text::texts(args@);
    let ghost all = text::str_texts(list@);
    let mut i: usize = 0;
    assert(before + all.take(0) =~= before);
    while i < list.len()
        invariant
            i <= list.len(),
            all == text::str_texts(list@),
            text::texts(args@) == before + all.take(i as int),
        decreases list.len() - i,
    {
        push_text(args, list[i]);
        i += 1;
        assert(text::texts(args@) =~= before + all.take(i as int));
    }
    assert(all.take(all.len() as int) =~= all);
}

fn push_head(args: &mut Vec<String>)
    ensures
        text::texts(final(args)@) == text::texts(old(args)@) + frame_head(),
{
    let list: Vec<&str> = vec!["-hide_banner", "-loglevel", "error", "-nostdin"];
    assert(text::str_texts(list@) =~= frame_head());
    push_all(args, &list);
}

fn push_tail(args: &mut Vec<String>)
    ensures
        text::texts(final(args)@) == text::texts(old(args)@) + frame_tail(),
{
    let list: Vec<&str> = vec![
        "-frames:v", "1", "-vf", "scale='min(400,iw)':-2", "-f", "image2", "-vcodec", "mjpeg",
        "-q:v", "4", "pipe:1",
    ];
    assert(text::str_texts(list@) =~= frame_tail());
    push_all(args, &list);
}

/// The arguments for a picture of a file.
pub fn file_frame_args(path: &str) -> (r: Vec<String>)
    ensures
        text::texts(r@) == frame_head() + seq!["-i"@, path@] + frame_tail(),
{
    let mut args: Vec<String> = Vec::new();
    assert(text::texts(args@) =~= Seq::empty());
    push_head(&mut args);
    push_text(&mut args, "-i");
    push_text(&mut args, path);
    push_tail(&mut args);
    assert(text::texts(args@) =~= frame_head() + seq!["-i"@, path@] + frame_tail());
    args
}

/// Whether an address is that of a playlist.
pub open spec fn is_playlist_url(url: Seq<char>) -> bool {
    pages::has_extension(url, "m3u8"@) || pages::has_extension(url, "mpd"@)
}

/// The positions, in seconds, at which a picture is tried: a playlist is not searched.
pub open spec fn seeks_of(url: Seq<char>) -> Seq<Seq<char>> {
    if is_playlist_url(url) {
        seq!["0"@]
    } else {
        seq!["1"@, "0"@]
    }
}

/// The positions at which a picture is tried.
pub fn frame_seeks(url: &str) -> (r: Vec<String>)
    ensures
        text::texts(r@) == seeks_of(url@),
{
    let mut out: Vec<String> = Vec::new();
    assert(text::texts(out@) =~= Seq::empty());
    if !(url_ends_with(url, "m3u8") || url_ends_with(url, "mpd")) {
        push_text(&mut out, "1");
    }
    push_text(&mut out, "0");
    assert(text::texts(out@) =~= seeks_of(url@));
    out
}

/// The arguments for a picture of an address that ffmpeg opens by itself.
pub open spec fn url_frame_args(
    url: Seq<char>,
    seek: Seq<char>,
    head: Seq<char>,
    has_agent: bool,
) -> Seq<Seq<char>> {
    frame_head() + seq!["-rw_timeout"@, "10000000"@] + (if is_playlist_url(url) {
        seq!["-probesize"@, "800000"@, "-analyzeduration"@, "2000000"@]
    } else {
        Seq::empty()
    }) + (if has_agent {
        Seq::empty()
    } else {
        seq!["-user_agent"@, FALLBACK_UA@]
    }) + (if head.len() == 0 {
        Seq::empty()
    } else {
        seq!["-headers"@, head]
    }) + seq!["-ss"@, seek, "-i"@, url] + frame_tail()
}

/// Builds the arguments for a picture of an address that ffmpeg opens by itself.
pub fn address_frame_args(url: &str, seek: &str, ctx: &RequestContext) -> (r: Vec<String>)
    ensures
        ({
            let h = net::pairs_view(ctx.headers.list());
            text::texts(r@) == url_frame_args(
                url@,
                seek@,
                headers::header_text(h, text::opt(ctx.cookie)),
                headers::has_header(h, "User-Agent"@),
            )
        }),
{
    let head = write_headers(ctx);
    let mut args: Vec<String> = Vec::new();
    assert(text::texts(args@) =~= Seq::empty());
    push_head(&mut args);
    assert(text::texts(args@) =~= frame_head());
    push_text(&mut args, "-rw_timeout");
    push_text(&mut args, "10000000");
    assert(text::texts(args@) =~= frame_head() + seq!["-rw_timeout"@, "10000000"@]);
    let ghost a = text::texts(args@);
    if url_ends_with(url, "m3u8") || url_ends_with(url, "mpd") {
        push_text(&mut args, "-probesize");
        push_text(&mut args, "800000");
        push_text(&mut args, "-analyzeduration");
        push_text(&mut args, "2000000");
        assert(text::texts(args@) =~= a + seq![
            "-probesize"@,
            "800000"@,
            "-analyzeduration"@,
            "2000000"@,
        ]);
    } else {
        assert(text::texts(args@) =~= a + Seq::empty());
    }
    let ghost b = text::texts(args@);
    if !has_agent(ctx) {
        push_text(&mut args, "-user_agent");
        push_text(&mut args, FALLBACK_UA);
        assert(text::texts(args@) =~= b + seq!["-user_agent"@, FALLBACK_UA@]);
    } else {
        assert(text::texts(args@) =~= b + Seq::empty());
    }
    let ghost c = text::texts(args@);
    if chars_of(head.as_str()).len() > 0 {
        push_text(&mut args, "-headers");
        push_text(&mut args, head.as_str());
        assert(text::texts(args@) =~= c + seq!["-headers"@, head@]);
    } else {
        assert(text::texts(args@) =~= c + Seq::empty());
    }
    let ghost d = text::texts(args@);
    push_text(&mut args, "-ss");
    push_text(&mut args, seek);
    push_text(&mut args, "-i");
    push_text(&mut args, url);
    assert(text::texts(args@) =~= d + seq!["-ss"@, seek@, "-i"@, url@]);
    push_tail(&mut args);
    args
}

// ---------------------------------------------------------------------------
// What a preview keeps to
// ---------------------------------------------------------------------------

/// How many steps a preview may still take.
pub open spec fn steps_left(step: StepView) -> nat {
    match step {
        StepView::ReadBeginning => 7,
        StepView::DecodeBeginning => 6,
        StepView::RequestWhole => 5,
        StepView::ReadWhole => 4,
        StepView::DecodeWhole(_) => 3,
        StepView::FetchSegments => 2,
        StepView::DecodeSegments => 1,
        StepView::OpenAddress => 0,
        StepView::ReadImage => 0,
        StepView::ReadPdf => 0,
        StepView::Done(_) => 0,
    }
}

/// Whether a run is at its end.
pub open spec fn is_done(r: RunView) -> bool {
    r.step is Done
}

/// Every preview comes to an end: whatever comes back at a step, the run ends or has
/// fewer steps left.
pub proof fn previews_end(
    r: RunView,
    body: Option<Seq<u8>>,
    status: Option<u16>,
    fetched: bool,
    frame: Option<Seq<u8>>,
)
    ensures
        match r.step {
            StepView::ReadImage | StepView::ReadPdf => is_done(after_body(r, body)),
            StepView::ReadBeginning | StepView::ReadWhole => steps_left(after_body(r, body).step)
                < steps_left(r.step),
            StepView::RequestWhole => steps_left(after_request(r, status).step) < steps_left(
                r.step,
            ),
            StepView::FetchSegments => steps_left(after_segments(r, fetched).step) < steps_left(
                r.step,
            ),
            StepView::DecodeBeginning | StepView::DecodeWhole(_) | StepView::DecodeSegments => {
                is_done(after_frame(r, frame)) || steps_left(after_frame(r, frame).step)
                    < steps_left(r.step)
            },
            StepView::OpenAddress => is_done(after_frame(r, frame)),
            StepView::Done(_) => {
                &&& after_body(r, body) == r
                &&& after_request(r, status) == r
                &&& after_segments(r, fetched) == r
                &&& after_frame(r, frame) == r
            },
        },
{
}

/// A picture that ffmpeg made is taken at whatever step it was asked for.
pub proof fn pictures_are_taken(r: RunView, frame: Seq<u8>)
    requires
        r.step is DecodeBeginning || r.step is DecodeWhole || r.step is DecodeSegments
            || r.step is OpenAddress,
        0 < frame.len() <= MAX_FRAME_BYTES,
    ensures
        after_frame(r, Some(frame)).step == StepView::Done(
            Ok((data_address("image/jpeg"@, frame), PreviewKind::Video)),
        ),
{
}

} // verus!
