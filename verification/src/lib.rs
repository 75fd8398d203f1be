//! Turn a directory of numbered still images into one video by driving an
//! external transcoding engine.
//!
//! The library holds the decisions: which inputs are acceptable, which glob
//! pattern selects the frames, which arguments the engine receives and how its
//! captured output is read. Touching the file system and launching the engine
//! is left to the caller, who reports what was observed as plain values.
use vstd::prelude::*;
use vstd::utf8::{decode_utf8, valid_utf8};
use crate::paths::{extension_of, file_name_of, join, joined};
use crate::text::{decimal, decimal_text, prefixed};
use crate::utils::{
    canonical_extension, engine_accepted, engine_name, engine_verdict, glob_pattern,
    images_accepted, images_verdict, lemma_qualifying_contains, qualifying, texts, Error,
};

pub mod paths;
pub mod text;
pub mod utils;

verus! {

/// The encoders the engine can be asked to use. `Unset` marks a codec that
/// was never chosen and is rejected wherever a codec is needed.
#[derive(Clone, Copy, Debug, PartialEq, Eq, Structural)]
pub enum Codec {
    ProRes,
    H264,
    Unset,
}

impl Codec {
    /// The engine's name for the encoder.
    pub open spec fn encoder_name(self) -> Seq<char> {
        match self {
            Codec::ProRes => "prores"@,
            Codec::H264 => "libx264"@,
            Codec::Unset => Seq::empty(),
        }
    }

    /// The engine's name for the pixel format that goes with the encoder.
    pub open spec fn pixel_format_name(self) -> Seq<char> {
        match self {
            Codec::ProRes => "yuv422p10le"@,
            Codec::H264 => "yuv420p"@,
            Codec::Unset => Seq::empty(),
        }
    }

    /// The encoder's name, or an error where no codec was chosen.
    pub fn to_string(&self) -> (r: Result<String, Error>)
        ensures
            if *self == Codec::Unset {
                r matches Err(e) && e.is_custom("Codec Not Set"@)
            } else {
                r matches Ok(s) && s@ == self.encoder_name()
            },
    {
        match self {
            Codec::ProRes => Ok(String::from_str("prores")),
            Codec::H264 => Ok(String::from_str("libx264")),
            Codec::Unset => Err(Error::Custom(String::from_str("Codec Not Set"))),
        }
    }

    /// The pixel format's name, or an error where no codec was chosen.
    pub fn pixel_format(&self) -> (r: Result<String, Error>)
        ensures
            if *self == Codec::Unset {
                r matches Err(e) && e.is_custom("Codec Not Set"@)
            } else {
                r matches Ok(s) && s@ == self.pixel_format_name()
            },
    {
        match self {
            Codec::ProRes => Ok(String::from_str("yuv422p10le")),
            Codec::H264 => Ok(String::from_str("yuv420p")),
            Codec::Unset => Err(Error::Custom(String::from_str("Codec Not Set"))),
        }
    }
}

/// One conversion job: where the engine is, which frames it reads, where the
/// video goes, at which frame rate and with which codec.
pub struct Config {
    ffmpeg_path: String,
    images_path: String,
    output_path: String,
    frame_rate: u32,
    codec: Codec,
}

/// What a `Config` holds, as plain values.
pub struct ConfigView {
    pub ffmpeg_path: Seq<char>,
    pub images_path: Seq<char>,
    pub output_path: Seq<char>,
    pub frame_rate: u32,
    pub codec: Codec,
}

impl View for Config {
    type V = ConfigView;

    closed spec fn view(&self) -> ConfigView {
        ConfigView {
            ffmpeg_path: self.ffmpeg_path@,
            images_path: self.images_path@,
            output_path: self.output_path@,
            frame_rate: self.frame_rate,
            codec: self.codec,
        }
    }
}

impl Config {
    /// A configuration with exactly these fields, unchecked: for values that
    /// were stored and are read back.
    pub fn from_parts(
        ffmpeg_path: String,
        images_path: String,
        output_path: String,
        frame_rate: u32,
        codec: Codec,
    ) -> (r: Config)
        ensures
            r@ == (ConfigView {
                ffmpeg_path: ffmpeg_path@,
                images_path: images_path@,
                output_path: output_path@,
                frame_rate,
                codec,
            }),
    {
        Config { ffmpeg_path, images_path, output_path, frame_rate, codec }
    }

    /// Replaces the codec and leaves everything else as it was.
    pub fn set_codec(&mut self, codec: Codec)
        ensures
            final(self)@ == (ConfigView { codec, ..old(self)@ }),
    {
        self.codec = codec;
    }

    /// The codec.
    pub fn codec(&mut self) -> (r: &Codec)
        ensures
            *r == old(self)@.codec,
            final(self)@ == old(self)@,
    {
        &self.codec
    }

    /// The path of the engine's executable.
    pub fn ffmpeg_path(&self) -> (r: &str)
        ensures
            r@ == self@.ffmpeg_path,
    {
        self.ffmpeg_path.as_str()
    }

    /// The glob pattern that selects the frames.
    pub fn images_path(&self) -> (r: &str)
        ensures
            r@ == self@.images_path,
    {
        self.images_path.as_str()
    }

    /// The path of the video to write.
    pub fn output_path(&self) -> (r: &str)
        ensures
            r@ == self@.output_path,
    {
        self.output_path.as_str()
    }

    /// The frame rate.
    pub fn frame_rate(&self) -> (r: u32)
        ensures
            r == self@.frame_rate,
    {
        self.frame_rate
    }
}

impl Default for Config {
    /// Empty paths, frame rate zero and no codec chosen.
    fn default() -> (r: Config)
        ensures
            r@ == (ConfigView {
                ffmpeg_path: Seq::empty(),
                images_path: Seq::empty(),
                output_path: Seq::empty(),
                frame_rate: 0,
                codec: Codec::Unset,
            }),
    {
        Config {
            ffmpeg_path: String::new(),
            images_path: String::new(),
            output_path: String::new(),
            frame_rate: 0,
            codec: Codec::Unset,
        }
    }
}

/// The directory the video goes to: the one given, else `Video` inside the
/// images directory.
pub open spec fn output_dir_of(images_path: Seq<char>, given: Option<String>) -> Seq<char> {
    match given {
        Some(dir) => dir@,
        None => joined(images_path, "Video"@),
    }
}

/// The directory that must exist before a video can be written where no
/// output directory was given.
pub fn default_output_dir(images_path_str: &str) -> (r: String)
    ensures
        r@ == output_dir_of(images_path_str@, None),
{
    join(images_path_str, "Video")
}

/// The inputs from which a configuration is built: a codec is chosen, the
/// engine's path and the images directory are accepted, and an output
/// directory is given or the default one is ready.
pub open spec fn config_accepted(
    ffmpeg_path: Seq<char>,
    probe: Result<bool, std::io::Error>,
    is_dir: bool,
    listing: Result<Vec<String>, std::io::Error>,
    output_path_opt: Option<String>,
    output_ready: bool,
    codec: Codec,
) -> bool {
    codec != Codec::Unset && engine_accepted(ffmpeg_path, probe) && images_accepted(is_dir, listing)
        && (output_path_opt is Some || output_ready)
}

/// No configuration is built where the codec is unset, where nothing exists
/// at the engine's path, where the engine's file name is not the expected
/// one, where the images directory is empty, or where none of its entries
/// has an extension.
pub proof fn lemma_unusable_inputs_are_refused(
    ffmpeg_path: Seq<char>,
    probe: Result<bool, std::io::Error>,
    is_dir: bool,
    listing: Result<Vec<String>, std::io::Error>,
    output_path_opt: Option<String>,
    output_ready: bool,
    codec: Codec,
)
    requires
        codec == Codec::Unset || probe == Ok::<bool, std::io::Error>(false) || file_name_of(
            ffmpeg_path,
        ) != Some(engine_name()) || (listing matches Ok(entries) && entries@.len() == 0) || (
        listing matches Ok(entries) && forall|i: int|
            0 <= i < entries@.len() ==> extension_of(#[trigger] entries@[i]@) is None),
    ensures
        !config_accepted(
            ffmpeg_path,
            probe,
            is_dir,
            listing,
            output_path_opt,
            output_ready,
            codec,
        ),
{
    if listing is Ok {
        let entries = texts(listing->Ok_0@);
        let q = qualifying(entries);
        if q.len() > 0 && forall|i: int|
            0 <= i < entries.len() ==> extension_of(#[trigger] listing->Ok_0@[i]@) is None {
            assert(q.contains(q[0]));
            lemma_qualifying_contains(entries, q[0]);
            let k = choose|k: int| 0 <= k < entries.len() && entries[k] == q[0];
            assert(extension_of(listing->Ok_0@[k]@) is None);
        }
    }
}

/// Builds the configuration of one job from the caller's choices and from
/// what the caller observed on the file system:
/// - `probe`: whether something exists at `ffmpeg_path_str`, or why that
///   could not be told;
/// - `is_dir`: whether `images_path_str` is an existing directory;
/// - `listing`: the entries of that directory, or why they could not be read;
/// - `output_ready`: whether the default output directory exists or could be
///   created; it matters only where `output_path_opt` is `None`.
///
/// The checks are made in this order, and the first that fails gives the
/// error: the codec is set; the engine's path is accepted; the images
/// directory is accepted; the default output directory is ready. Otherwise
/// the result holds the engine's path, the pattern of the frames, the output
/// file inside the output directory, the frame rate and the codec.
pub fn build_config(
    ffmpeg_path_str: &str,
    probe: Result<bool, std::io::Error>,
    images_path_str: &str,
    is_dir: bool,
    listing: Result<Vec<String>, std::io::Error>,
    output_path_opt: Option<String>,
    output_ready: bool,
    output_file_name_str: &str,
    frame_rate: u32,
    codec: Codec,
) -> (r: Result<Config, Error>)
    ensures
        r is Ok <==> config_accepted(
            ffmpeg_path_str@,
            probe,
            is_dir,
            listing,
            output_path_opt,
            output_ready,
            codec,
        ),
        if codec == Codec::Unset {
            r matches Err(e) && e.is_custom("Codec Not Set"@)
        } else if !engine_accepted(ffmpeg_path_str@, probe) {
            r matches Err(e) && engine_verdict(ffmpeg_path_str@, probe, Err(e))
        } else if !images_accepted(is_dir, listing) {
            r matches Err(e) && images_verdict(images_path_str@, is_dir, listing, Err(e))
        } else if output_path_opt is None && !output_ready {
            r matches Err(e) && e.is_custom(
                output_dir_of(images_path_str@, output_path_opt) + " already exists."@,
            )
        } else {
            r matches Ok(config) && config@ == (ConfigView {
                ffmpeg_path: ffmpeg_path_str@,
                images_path: glob_pattern(
                    images_path_str@,
                    canonical_extension(texts(listing->Ok_0@)),
                ),
                output_path: joined(
                    output_dir_of(images_path_str@, output_path_opt),
                    output_file_name_str@,
                ),
                frame_rate,
                codec,
            })
        },
{
    if codec == Codec::Unset {
        return Err(Error::Custom(String::from_str("Codec Not Set")));
    }
    let ffmpeg_path = match utils::ffmpeg_path(ffmpeg_path_str, probe) {
        Ok(path) => path,
        Err(e) => {
            return Err(e);
        },
    };
    let (images_path, image_paths) = match utils::images_path(images_path_str, is_dir, listing) {
        Ok(pair) => pair,
        Err(e) => {
            return Err(e);
        },
    };
    let output_dir = match output_path_opt {
        Some(output_path) => output_path,
        None => {
            let output_dir = join(images_path.as_str(), "Video");
            if !output_ready {
                return Err(Error::Custom(prefixed(output_dir.as_str(), " already exists.")));
            }
            output_dir
        },
    };
    let output_path = join(output_dir.as_str(), output_file_name_str);
    Ok(Config { ffmpeg_path, images_path: image_paths, output_path, frame_rate, codec })
}

/// What a finished run of the engine left behind.
pub struct Output {
    /// Whether the engine reported success by its exit status.
    pub success: bool,
    /// Everything the engine wrote to its standard output.
    pub stdout: Vec<u8>,
    /// Everything the engine wrote to its standard error.
    pub stderr: Vec<u8>,
}

impl Output {
    /// The captured stream that carries the message: standard output after
    /// success, standard error after failure.
    pub open spec fn message_bytes(self) -> Seq<u8> {
        if self.success {
            self.stdout@
        } else {
            self.stderr@
        }
    }
}

/// The arguments the engine is launched with, in the order its grammar asks
/// for: overwrite, glob input mode, frame rate, input pattern, encoder, pixel
/// format, output file.
pub open spec fn engine_arguments(config: ConfigView) -> Seq<Seq<char>> {
    seq![
        "-y"@,
        "-pattern_type"@,
        "glob"@,
        "-framerate"@,
        decimal_text(config.frame_rate as nat),
        "-i"@,
        config.images_path,
        "-c:v"@,
        config.codec.encoder_name(),
        "-pix_fmt"@,
        config.codec.pixel_format_name(),
        config.output_path,
    ]
}

/// The arguments to launch the engine with for this job, or an error where
/// the job has no codec.
pub fn arguments(config: &Config) -> (r: Result<Vec<String>, Error>)
    ensures
        if config@.codec == Codec::Unset {
            r matches Err(e) && e.is_custom("Codec Not Set"@)
        } else {
            r matches Ok(args) && texts(args@) == engine_arguments(config@)
        },
{
    let codec = match config.codec.to_string() {
        Ok(name) => name,
        Err(e) => {
            return Err(e);
        },
    };
    let pixel_format = match config.codec.pixel_format() {
        Ok(name) => name,
        Err(e) => {
            return Err(e);
        },
    };
    let mut args: Vec<String> = Vec::new();
    args.push(String::from_str("-y"));
    args.push(String::from_str("-pattern_type"));
    args.push(String::from_str("glob"));
    args.push(String::from_str("-framerate"));
    args.push(decimal(config.frame_rate));
    args.push(String::from_str("-i"));
    args.push(config.images_path.clone());
    args.push(String::from_str("-c:v"));
    args.push(codec);
    args.push(String::from_str("-pix_fmt"));
    args.push(pixel_format);
    args.push(config.output_path.clone());
    assert(texts(args@) =~= engine_arguments(config@));
    Ok(args)
}

/// Calls `String::from_utf8`: the bytes become text exactly when they are
/// valid UTF-8, and the text is then what they decode to.
#[verifier::external_body]
fn text_from_utf8(bytes: Vec<u8>) -> (r: Result<String, std::string::FromUtf8Error>)
    ensures
        r is Ok <==> valid_utf8(bytes@),
        r matches Ok(s) ==> s@ == decode_utf8(bytes@),
{
    String::from_utf8(bytes)
}

/// Reads the bytes of a captured stream as text.
pub fn decode_message(bytes: Vec<u8>) -> (r: Result<String, Error>)
    ensures
        if valid_utf8(bytes@) {
            r matches Ok(s) && s@ == decode_utf8(bytes@)
        } else {
            r matches Err(Error::Utf8(_))
        },
{
    match text_from_utf8(bytes) {
        Ok(s) => Ok(s),
        Err(e) => Err(Error::Utf8(e)),
    }
}

/// The message of a job, given what launching the engine for it produced:
/// the finished run, or the failure to launch.
///
/// A job without codec is an error whatever was produced. A failed launch is
/// an I/O error. A finished run gives the text of its standard output after
/// success and of its standard error after failure, both as `Ok`; bytes that
/// are no text are a decoding error.
pub fn run(config: Config, outcome: Result<Output, std::io::Error>) -> (r: Result<String, Error>)
    ensures
        if config@.codec == Codec::Unset {
            r matches Err(e) && e.is_custom("Codec Not Set"@)
        } else {
            match outcome {
                Err(e) => r matches Err(Error::Io(f)) && f == e,
                Ok(output) => if valid_utf8(output.message_bytes()) {
                    r matches Ok(s) && s@ == decode_utf8(output.message_bytes())
                } else {
                    r matches Err(Error::Utf8(_))
                },
            }
        },
{
    match config.codec.to_string() {
        Ok(_) => {},
        Err(e) => {
            return Err(e);
        },
    }
    match outcome {
        Ok(output) => {
            if output.success {
                decode_message(output.stdout)
            } else {
                decode_message(output.stderr)
            }
        },
        Err(error) => Err(Error::Io(error)),
    }
}

} // verus!
