use crate::path::{extension_of, file_name, file_name_of, path_extension, text_of};
use crate::number::{bounded_value, parse_unsigned};
use crate::text::{
    chars_of, lowercase, rows, same_text, split, split_chars, to_lowercase, to_uppercase, uppercase,
};
use vstd::prelude::*;

verus! {

/// A frame rate as the quotient of two whole numbers, `numerator` frames in
/// `denominator` seconds.
#[derive(Clone, Copy, Debug, PartialEq, Eq)]
pub struct FrameRate {
    pub numerator: u64,
    pub denominator: u64,
}

/// What is known of a video file.
#[derive(Debug, PartialEq, Eq)]
pub struct VideoInfo {
    /// Where the file lies.
    pub path: String,
    /// The file's name.
    pub name: String,
    /// The file's size in bytes.
    pub size: u64,
    /// The playing time in nanoseconds.
    pub duration: Option<u64>,
    /// Width and height in pixels.
    pub resolution: Option<(u32, u32)>,
    /// The video codec.
    pub codec: Option<String>,
    /// The audio codec.
    pub audio_codec: Option<String>,
    /// When the file was created, in seconds since the Unix epoch.
    pub created_time: Option<u64>,
    /// When the file was last modified, in seconds since the Unix epoch.
    pub modified_time: Option<u64>,
    /// The container format.
    pub container_format: Option<String>,
    /// The frame rate.
    pub frame_rate: Option<FrameRate>,
    /// The bit rate in bits per second.
    pub bit_rate: Option<u32>,
}

/// The mathematical value of a `VideoInfo`.
pub ghost struct VideoInfoView {
    pub path: Seq<char>,
    pub name: Seq<char>,
    pub size: u64,
    pub duration: Option<u64>,
    pub resolution: Option<(u32, u32)>,
    pub codec: Option<Seq<char>>,
    pub audio_codec: Option<Seq<char>>,
    pub created_time: Option<u64>,
    pub modified_time: Option<u64>,
    pub container_format: Option<Seq<char>>,
    pub frame_rate: Option<FrameRate>,
    pub bit_rate: Option<u32>,
}

impl View for VideoInfo {
    type V = VideoInfoView;

    open spec fn view(&self) -> VideoInfoView {
        VideoInfoView {
            path: self.path@,
            name: self.name@,
            size: self.size,
            duration: self.duration,
            resolution: self.resolution,
            codec: text_of(self.codec),
            audio_codec: text_of(self.audio_codec),
            created_time: self.created_time,
            modified_time: self.modified_time,
            container_format: text_of(self.container_format),
            frame_rate: self.frame_rate,
            bit_rate: self.bit_rate,
        }
    }
}

/// A copy of an optional string.
pub fn copy_text(value: &Option<String>) -> (r: Option<String>)
    ensures
        text_of(r) == text_of(*value),
{
    match value {
        Some(s) => Some(s.clone()),
        None => None,
    }
}

impl Clone for VideoInfo {
    fn clone(&self) -> (r: Self)
        ensures
            r@ == self@,
    {
        VideoInfo {
            path: self.path.clone(),
            name: self.name.clone(),
            size: self.size,
            duration: self.duration,
            resolution: self.resolution,
            codec: copy_text(&self.codec),
            audio_codec: copy_text(&self.audio_codec),
            created_time: self.created_time,
            modified_time: self.modified_time,
            container_format: copy_text(&self.container_format),
            frame_rate: self.frame_rate,
            bit_rate: self.bit_rate,
        }
    }
}

/// What the file system says of a file.
#[derive(Clone, Copy, Debug, PartialEq, Eq)]
pub struct FileFacts {
    /// The file's size in bytes.
    pub size: u64,
    /// When the file was created, in seconds since the Unix epoch.
    pub created: Option<u64>,
    /// When the file was last modified, in seconds since the Unix epoch.
    pub modified: Option<u64>,
}

/// What a probe of a video's contents found.
#[derive(Debug, PartialEq, Eq)]
pub struct VideoMetadata {
    /// The playing time in nanoseconds.
    pub duration: Option<u64>,
    pub width: Option<u32>,
    pub height: Option<u32>,
    pub video_codec: Option<String>,
    pub audio_codec: Option<String>,
    pub container_format: String,
    pub frame_rate: Option<FrameRate>,
    pub bit_rate: Option<u32>,
    pub has_video: bool,
    pub has_audio: bool,
}

impl Default for VideoMetadata {
    fn default() -> (r: Self)
        ensures
            r.duration is None,
            r.width is None,
            r.height is None,
            r.video_codec is None,
            r.audio_codec is None,
            r.container_format@ == Seq::<char>::empty(),
            r.frame_rate is None,
            r.bit_rate is None,
            !r.has_video,
            !r.has_audio,
    {
        VideoMetadata {
            duration: None,
            width: None,
            height: None,
            video_codec: None,
            audio_codec: None,
            container_format: String::new(),
            frame_rate: None,
            bit_rate: None,
            has_video: false,
            has_audio: false,
        }
    }
}

/// The mathematical value of a `VideoMetadata`.
pub ghost struct VideoMetadataView {
    pub duration: Option<u64>,
    pub width: Option<u32>,
    pub height: Option<u32>,
    pub video_codec: Option<Seq<char>>,
    pub audio_codec: Option<Seq<char>>,
    pub container_format: Seq<char>,
    pub frame_rate: Option<FrameRate>,
    pub bit_rate: Option<u32>,
    pub has_video: bool,
    pub has_audio: bool,
}

impl View for VideoMetadata {
    type V = VideoMetadataView;

    open spec fn view(&self) -> VideoMetadataView {
        VideoMetadataView {
            duration: self.duration,
            width: self.width,
            height: self.height,
            video_codec: text_of(self.video_codec),
            audio_codec: text_of(self.audio_codec),
            container_format: self.container_format@,
            frame_rate: self.frame_rate,
            bit_rate: self.bit_rate,
            has_video: self.has_video,
            has_audio: self.has_audio,
        }
    }
}

/// The name under which a file without a final path component goes.
pub open spec fn unknown_name() -> Seq<char> {
    "Unknown"@
}

/// The name to show for `path`: its final component, or `Unknown`.
pub open spec fn display_name(path: Seq<char>) -> Seq<char> {
    match file_name(path) {
        Some(name) => name,
        None => unknown_name(),
    }
}

/// The name to show for `path`.
pub fn display_name_of(path: &str) -> (r: String)
    ensures
        r@ == display_name(path@),
{
    match file_name_of(path) {
        Some(name) => name,
        None => "Unknown".to_string(),
    }
}

/// The record of a file at `path` with the given facts and probe result; a
/// missing probe result stands for one that found nothing.
pub open spec fn video_info_of(
    path: Seq<char>,
    facts: FileFacts,
    metadata: Option<VideoMetadataView>,
) -> VideoInfoView {
    VideoInfoView {
        path,
        name: display_name(path),
        size: facts.size,
        duration: match metadata {
            Some(m) => m.duration,
            None => None,
        },
        resolution: match metadata {
            Some(m) => match (m.width, m.height) {
                (Some(w), Some(h)) => Some((w, h)),
                _ => None,
            },
            None => None,
        },
        codec: match metadata {
            Some(m) => m.video_codec,
            None => None,
        },
        audio_codec: match metadata {
            Some(m) => m.audio_codec,
            None => None,
        },
        created_time: facts.created,
        modified_time: facts.modified,
        container_format: match metadata {
            Some(m) => Some(m.container_format),
            None => Some(Seq::<char>::empty()),
        },
        frame_rate: match metadata {
            Some(m) => m.frame_rate,
            None => None,
        },
        bit_rate: match metadata {
            Some(m) => m.bit_rate,
            None => None,
        },
    }
}

/// Puts video records together.
pub struct VideoProcessor;

impl VideoProcessor {
    pub fn new() -> (r: Self) {
        VideoProcessor
    }

    /// The record of the video at `path`, from what the file system and a
    /// probe of its contents said.
    pub fn create_video_info(
        &self,
        path: String,
        facts: FileFacts,
        metadata: Option<VideoMetadata>,
    ) -> (r: VideoInfo)
        ensures
            r@ == video_info_of(
                path@,
                facts,
                match metadata {
                    Some(m) => Some(m@),
                    None => None,
                },
            ),
    {
        let name = display_name_of(path.as_str());
        let m = match metadata {
            Some(m) => m,
            None => VideoMetadata::default(),
        };
        let resolution = match (m.width, m.height) {
            (Some(w), Some(h)) => Some((w, h)),
            _ => None,
        };
        VideoInfo {
            path,
            name,
            size: facts.size,
            duration: m.duration,
            resolution,
            codec: m.video_codec,
            audio_codec: m.audio_codec,
            created_time: facts.created,
            modified_time: facts.modified,
            container_format: Some(m.container_format),
            frame_rate: m.frame_rate,
            bit_rate: m.bit_rate,
        }
    }
}

/// Whether a lowercase extension is that of a video file.
pub open spec fn is_video_extension(extension: Seq<char>) -> bool {
    ||| extension == "mp4"@
    ||| extension == "avi"@
    ||| extension == "mov"@
    ||| extension == "mkv"@
    ||| extension == "wmv"@
    ||| extension == "flv"@
    ||| extension == "webm"@
}

/// Whether the file at `path` is a video, told by its extension without
/// regard to case.
pub open spec fn is_video_path(path: Seq<char>) -> bool {
    match path_extension(path) {
        Some(extension) => is_video_extension(lowercase(extension)),
        None => false,
    }
}

/// Whether a lowercase extension is that of a video file.
pub fn video_extension(extension: &str) -> (r: bool)
    ensures
        r == is_video_extension(extension@),
{
    same_text(extension, "mp4") || same_text(extension, "avi") || same_text(extension, "mov")
        || same_text(extension, "mkv") || same_text(extension, "wmv") || same_text(
        extension,
        "flv",
    ) || same_text(extension, "webm")
}

/// Whether the file at `path` is a video, told by its extension.
pub fn is_video_file(path: &str) -> (r: bool)
    ensures
        r == is_video_path(path@),
{
    match extension_of(path) {
        Some(extension) => {
            let lower = to_lowercase(extension.as_str());
            video_extension(lower.as_str())
        },
        None => false,
    }
}

/// The views of a list of video records.
pub open spec fn video_views(list: Seq<VideoInfo>) -> Seq<VideoInfoView> {
    Seq::new(list.len(), |i: int| list[i]@)
}

/// What a probe says of a file as a whole.
#[derive(Debug, PartialEq, Eq)]
pub struct ProbeFormat {
    /// The playing time in nanoseconds, where the probe gave one that could
    /// be read.
    pub duration: Option<u64>,
    /// The bit rate as the probe wrote it.
    pub bit_rate: Option<String>,
}

/// What a probe says of one stream of a file.
#[derive(Debug, PartialEq, Eq)]
pub struct ProbeStream {
    /// `video`, `audio` or something else.
    pub codec_type: Option<String>,
    pub codec_name: Option<String>,
    pub width: Option<u64>,
    pub height: Option<u64>,
    /// The frame rate as the probe wrote it, such as `30000/1001`.
    pub r_frame_rate: Option<String>,
    /// The playing time in nanoseconds, where the probe gave one that could
    /// be read.
    pub duration: Option<u64>,
}

/// The mathematical value of a `ProbeFormat`.
pub ghost struct ProbeFormatView {
    pub duration: Option<u64>,
    pub bit_rate: Option<Seq<char>>,
}

impl View for ProbeFormat {
    type V = ProbeFormatView;

    open spec fn view(&self) -> ProbeFormatView {
        ProbeFormatView { duration: self.duration, bit_rate: text_of(self.bit_rate) }
    }
}

/// The mathematical value of a `ProbeStream`.
pub ghost struct ProbeStreamView {
    pub codec_type: Option<Seq<char>>,
    pub codec_name: Option<Seq<char>>,
    pub width: Option<u64>,
    pub height: Option<u64>,
    pub r_frame_rate: Option<Seq<char>>,
    pub duration: Option<u64>,
}

impl View for ProbeStream {
    type V = ProbeStreamView;

    open spec fn view(&self) -> ProbeStreamView {
        ProbeStreamView {
            codec_type: text_of(self.codec_type),
            codec_name: text_of(self.codec_name),
            width: self.width,
            height: self.height,
            r_frame_rate: text_of(self.r_frame_rate),
            duration: self.duration,
        }
    }
}

/// The views of a list of streams.
pub open spec fn stream_views(list: Seq<ProbeStream>) -> Seq<ProbeStreamView> {
    Seq::new(list.len(), |i: int| list[i]@)
}

/// The frame rate that a text of two whole numbers with a slash between
/// them stands for; the second number must not be zero.
pub open spec fn frame_rate_of(text: Seq<char>) -> Option<FrameRate> {
    let parts = split(text, '/');
    if parts.len() == 2 {
        match (bounded_value(parts[0], u64::MAX), bounded_value(parts[1], u64::MAX)) {
            (Some(numerator), Some(denominator)) => if denominator != 0 {
                Some(FrameRate { numerator, denominator })
            } else {
                None
            },
            _ => None,
        }
    } else {
        None
    }
}

/// The bit rate that a decimal numeral stands for, where it fits.
pub open spec fn bit_rate_of(text: Seq<char>) -> Option<u32> {
    match bounded_value(text, u32::MAX as u64) {
        Some(v) => Some(v as u32),
        None => None,
    }
}

/// The low 32 bits of `value`.
pub open spec fn low_bits(value: u64) -> u32 {
    (value % 0x1_0000_0000) as u32
}

/// What is known before any stream is looked at: the container format, which
/// is the extension of the path in upper case, and the playing time and bit
/// rate of the file as a whole.
pub open spec fn initial_metadata(
    path: Seq<char>,
    format: Option<ProbeFormatView>,
) -> VideoMetadataView {
    VideoMetadataView {
        duration: match format {
            Some(f) => f.duration,
            None => None,
        },
        width: None,
        height: None,
        video_codec: None,
        audio_codec: None,
        container_format: match path_extension(path) {
            Some(extension) => uppercase(extension),
            None => Seq::empty(),
        },
        frame_rate: None,
        bit_rate: match format {
            Some(f) => match f.bit_rate {
                Some(text) => bit_rate_of(text),
                None => None,
            },
            None => None,
        },
        has_video: false,
        has_audio: false,
    }
}

/// What is known after one more stream. A video stream sets the codec, the
/// resolution and the frame rate, each where the stream gives it; an audio
/// stream sets the audio codec; and either gives the playing time where none
/// is known yet. Any other stream adds nothing.
pub open spec fn with_stream(known: VideoMetadataView, stream: ProbeStreamView) -> VideoMetadataView {
    let kind = stream.codec_type;
    if kind == Some("video"@) {
        VideoMetadataView {
            has_video: true,
            video_codec: match stream.codec_name {
                Some(name) => Some(name),
                None => known.video_codec,
            },
            width: match (stream.width, stream.height) {
                (Some(w), Some(h)) => Some(low_bits(w)),
                _ => known.width,
            },
            height: match (stream.width, stream.height) {
                (Some(w), Some(h)) => Some(low_bits(h)),
                _ => known.height,
            },
            frame_rate: match stream.r_frame_rate {
                Some(text) => match frame_rate_of(text) {
                    Some(rate) => Some(rate),
                    None => known.frame_rate,
                },
                None => known.frame_rate,
            },
            duration: match known.duration {
                Some(d) => Some(d),
                None => stream.duration,
            },
            ..known
        }
    } else if kind == Some("audio"@) {
        VideoMetadataView {
            has_audio: true,
            audio_codec: match stream.codec_name {
                Some(name) => Some(name),
                None => known.audio_codec,
            },
            duration: match known.duration {
                Some(d) => Some(d),
                None => stream.duration,
            },
            ..known
        }
    } else {
        known
    }
}

/// What is known after the first `n` of `streams`.
pub open spec fn with_streams(
    known: VideoMetadataView,
    streams: Seq<ProbeStreamView>,
    n: nat,
) -> VideoMetadataView
    decreases n,
{
    if n == 0 || n > streams.len() {
        known
    } else {
        with_stream(with_streams(known, streams, (n - 1) as nat), streams[n - 1])
    }
}

/// The metadata of the video at `path` from what a probe said of it.
pub open spec fn probed_metadata(
    path: Seq<char>,
    format: Option<ProbeFormatView>,
    streams: Seq<ProbeStreamView>,
) -> VideoMetadataView {
    with_streams(initial_metadata(path, format), streams, streams.len())
}

fn low_bits_of(value: u64) -> (r: u32)
    ensures
        r == low_bits(value),
{
    (value % 0x1_0000_0000) as u32
}

impl VideoProcessor {
    /// Reads a frame rate written as two whole numbers with a slash between
    /// them.
    pub fn parse_frame_rate(&self, text: &str) -> (r: Option<FrameRate>)
        ensures
            r == frame_rate_of(text@),
    {
        let parts = split_chars(&chars_of(text), '/');
        if parts.len() != 2 {
            return None;
        }
        assert(rows(parts@)[0] == parts@[0]@);
        assert(rows(parts@)[1] == parts@[1]@);
        match (parse_unsigned(&parts[0], u64::MAX), parse_unsigned(&parts[1], u64::MAX)) {
            (Some(numerator), Some(denominator)) => {
                if denominator != 0 {
                    Some(FrameRate { numerator, denominator })
                } else {
                    None
                }
            },
            _ => None,
        }
    }

    /// Reads a bit rate written as a decimal numeral.
    pub fn parse_bit_rate(&self, text: &str) -> (r: Option<u32>)
        ensures
            r == bit_rate_of(text@),
    {
        match parse_unsigned(&chars_of(text), u32::MAX as u64) {
            Some(v) => Some(v as u32),
            None => None,
        }
    }

    /// Adds to `known` what `stream` says.
    pub fn add_stream(&self, known: VideoMetadata, stream: &ProbeStream) -> (r: VideoMetadata)
        ensures
            r@ == with_stream(known@, stream@),
    {
        let mut m = known;
        let is_video = match &stream.codec_type {
            Some(kind) => same_text(kind.as_str(), "video"),
            None => false,
        };
        let is_audio = match &stream.codec_type {
            Some(kind) => same_text(kind.as_str(), "audio"),
            None => false,
        };
        if is_video {
            m.has_video = true;
            match &stream.codec_name {
                Some(name) => {
                    m.video_codec = Some(name.clone());
                },
                None => {},
            }
            match (stream.width, stream.height) {
                (Some(w), Some(h)) => {
                    m.width = Some(low_bits_of(w));
                    m.height = Some(low_bits_of(h));
                },
                _ => {},
            }
            match &stream.r_frame_rate {
                Some(text) => match self.parse_frame_rate(text.as_str()) {
                    Some(rate) => {
                        m.frame_rate = Some(rate);
                    },
                    None => {},
                },
                None => {},
            }
            if m.duration.is_none() {
                m.duration = stream.duration;
            }
        } else if is_audio {
            m.has_audio = true;
            match &stream.codec_name {
                Some(name) => {
                    m.audio_codec = Some(name.clone());
                },
                None => {},
            }
            if m.duration.is_none() {
                m.duration = stream.duration;
            }
        }
        m
    }

    /// The metadata of the video at `path` from what a probe said of the file
    /// and of its streams.
    pub fn metadata_from_probe(
        &self,
        path: &str,
        format: Option<&ProbeFormat>,
        streams: &Vec<ProbeStream>,
    ) -> (r: VideoMetadata)
        ensures
            r@ == probed_metadata(
                path@,
                match format {
                    Some(f) => Some(f@),
                    None => None,
                },
                stream_views(streams@),
            ),
    {
        let mut m = VideoMetadata::default();
        match extension_of(path) {
            Some(extension) => {
                m.container_format = to_uppercase(extension.as_str());
            },
            None => {},
        }
        match format {
            Some(f) => {
                m.duration = f.duration;
                match &f.bit_rate {
                    Some(text) => {
                        m.bit_rate = self.parse_bit_rate(text.as_str());
                    },
                    None => {},
                }
            },
            None => {},
        }
        let ghost start = m@;
        let ghost views = stream_views(streams@);
        let mut i: usize = 0;
        while i < streams.len()
            invariant
                i <= streams.len(),
                views == stream_views(streams@),
                m@ == with_streams(start, views, i as nat),
            decreases streams.len() - i,
        {
            assert(views[i as int] == streams@[i as int]@);
            m = self.add_stream(m, &streams[i]);
            i += 1;
        }
        m
    }
}

} // verus!
