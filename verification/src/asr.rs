//! Decisions of the streaming recogniser: which model files to use, which
//! model directory to take, the session's lifecycle, and what each decoded
//! result is reported as.

use vstd::prelude::*;
use crate::text::{
    chars_of, is_blank, is_white_space, law_trim_keeps_inner_text, string_of_chars, trim_chars,
    trimmed,
};

verus! {

/// The directory name of the bundled streaming model.
pub const MODEL_SUBDIR: &'static str = "sherpa-onnx-streaming-paraformer-bilingual-zh-en";

/// The token table of the model.
pub const TOKENS_FILE: &'static str = "tokens.txt";

/// The quantised encoder, preferred when present.
pub const ENCODER_INT8: &'static str = "encoder.int8.onnx";

/// The full-precision encoder.
pub const ENCODER_FP32: &'static str = "encoder.onnx";

/// The quantised decoder, preferred when present.
pub const DECODER_INT8: &'static str = "decoder.int8.onnx";

/// The full-precision decoder.
pub const DECODER_FP32: &'static str = "decoder.onnx";

/// The sample rate, in Hz, of the audio fed to the recogniser.
pub const SAMPLE_RATE: i32 = 16000;

/// Which of the model files exist in a candidate directory.
pub struct ModelProbe {
    pub has_tokens: bool,
    pub has_encoder_int8: bool,
    pub has_encoder_fp32: bool,
    pub has_decoder_int8: bool,
    pub has_decoder_fp32: bool,
}

/// The preferred file of a pair: the quantised one when it exists, else the
/// full-precision one when it exists.
pub open spec fn pick_file(int8: bool, fp32: bool, int8_name: Seq<char>, fp32_name: Seq<char>) -> Option<
    Seq<char>,
> {
    if int8 {
        Some(int8_name)
    } else if fp32 {
        Some(fp32_name)
    } else {
        None
    }
}

/// The encoder and decoder that a directory offers: none without a token
/// table, else the preferred encoder and decoder when both exist.
pub open spec fn detect_spec(p: ModelProbe) -> Option<(Seq<char>, Seq<char>)> {
    if !p.has_tokens {
        None
    } else {
        match (
            pick_file(p.has_encoder_int8, p.has_encoder_fp32, ENCODER_INT8@, ENCODER_FP32@),
            pick_file(p.has_decoder_int8, p.has_decoder_fp32, DECODER_INT8@, DECODER_FP32@),
        ) {
            (Some(e), Some(d)) => Some((e, d)),
            _ => None,
        }
    }
}

/// The encoder and decoder file names to use in a directory, quantised
/// files preferred; `None` when the directory lacks the token table, an
/// encoder or a decoder.
pub fn detect_paraformer(probe: &ModelProbe) -> (res: Option<(&'static str, &'static str)>)
    ensures
        match res {
            Some((e, d)) => detect_spec(*probe) == Some((e@, d@)),
            None => detect_spec(*probe) is None,
        },
{
    if !probe.has_tokens {
        return None;
    }
    let encoder = if probe.has_encoder_int8 {
        ENCODER_INT8
    } else if probe.has_encoder_fp32 {
        ENCODER_FP32
    } else {
        return None;
    };
    let decoder = if probe.has_decoder_int8 {
        DECODER_INT8
    } else if probe.has_decoder_fp32 {
        DECODER_FP32
    } else {
        return None;
    };
    Some((encoder, decoder))
}

/// A directory offers a model exactly when it holds the token table, an
/// encoder and a decoder; the quantised encoder and decoder are taken
/// wherever they exist, the full-precision ones otherwise.
pub proof fn law_detect_prefers_quantised(p: ModelProbe)
    ensures
        detect_spec(p) is Some <==> p.has_tokens && (p.has_encoder_int8 || p.has_encoder_fp32) && (
        p.has_decoder_int8 || p.has_decoder_fp32),
        detect_spec(p) is Some ==> detect_spec(p)->Some_0.0 == if p.has_encoder_int8 {
            ENCODER_INT8@
        } else {
            ENCODER_FP32@
        },
        detect_spec(p) is Some ==> detect_spec(p)->Some_0.1 == if p.has_decoder_int8 {
            DECODER_INT8@
        } else {
            DECODER_FP32@
        },
{
}

/// The first candidate directory that offers a usable model.
pub fn resolve_model_dir(probes: &Vec<ModelProbe>) -> (res: Option<usize>)
    ensures
        match res {
            Some(i) => i < probes@.len() && detect_spec(probes@[i as int]) is Some && forall|j: int|
                0 <= j < i ==> detect_spec(#[trigger] probes@[j]) is None,
            None => forall|j: int| 0 <= j < probes@.len() ==> detect_spec(#[trigger] probes@[j]) is None,
        },
{
    let mut i: usize = 0;
    while i < probes.len()
        invariant
            0 <= i <= probes@.len(),
            forall|j: int| 0 <= j < i ==> detect_spec(#[trigger] probes@[j]) is None,
        decreases probes.len() - i,
    {
        if detect_paraformer(&probes[i]).is_some() {
            return Some(i);
        }
        i = i + 1;
    }
    None
}


/// Why the recogniser could not be started.
pub enum AsrInitError {
    /// No candidate directory holds the bundled model.
    ModelMissing,
    /// The chosen directory lacks the encoder, decoder or token files.
    ModelIncomplete,
    /// The recognition engine could not be created from the model.
    EngineFailed,
}

impl AsrInitError {
    /// The message reported to the user.
    pub fn message(&self) -> (res: &'static str)
        ensures
            res@ == match self {
                AsrInitError::ModelMissing => "未找到内置语音模型（应用包内 models 缺失）"@,
                AsrInitError::ModelIncomplete => "模型目录缺少 encoder/decoder/tokens 文件"@,
                AsrInitError::EngineFailed => "识别引擎初始化失败（模型加载失败）"@,
            },
    {
        match self {
            AsrInitError::ModelMissing => "未找到内置语音模型（应用包内 models 缺失）",
            AsrInitError::ModelIncomplete => "模型目录缺少 encoder/decoder/tokens 文件",
            AsrInitError::EngineFailed => "识别引擎初始化失败（模型加载失败）",
        }
    }
}

/// The recogniser session: whether an engine is loaded, whether recognition
/// is running, and whether an input stream is open.
pub struct AsrSession {
    pub engine_loaded: bool,
    pub running: bool,
    pub has_stream: bool,
}

/// What starting a session does.
pub enum StartStep {
    /// An engine is loaded: open a fresh stream on it.
    ReuseEngine,
    /// No engine yet: find the model and create one.
    LoadEngine,
}

/// A session whose engine is loaded, running, with a fresh stream.
pub open spec fn started_session() -> AsrSession {
    AsrSession { engine_loaded: true, running: true, has_stream: true }
}

/// The session after stopping: not running and without a stream, the engine
/// kept; a session without an engine is unchanged.
pub open spec fn stopped_session(s: AsrSession) -> AsrSession {
    if s.engine_loaded {
        AsrSession { engine_loaded: true, running: false, has_stream: false }
    } else {
        s
    }
}

/// Whether the session accepts audio.
pub open spec fn accepts_audio(s: AsrSession) -> bool {
    s.engine_loaded && s.running && s.has_stream
}

/// Whether stopping the session flushes a stream.
pub open spec fn stop_flushes(s: AsrSession) -> bool {
    s.engine_loaded && s.has_stream
}

impl AsrSession {
    /// A session with no engine.
    pub fn new() -> (res: AsrSession)
        ensures
            !res.engine_loaded,
            !res.running,
            !res.has_stream,
    {
        AsrSession { engine_loaded: false, running: false, has_stream: false }
    }

    /// How to start: reuse the loaded engine, or load one.
    pub fn start_step(&self) -> (res: StartStep)
        ensures
            res is ReuseEngine <==> self.engine_loaded,
    {
        if self.engine_loaded {
            StartStep::ReuseEngine
        } else {
            StartStep::LoadEngine
        }
    }

    /// Records that the engine is loaded and a fresh stream is open and running.
    pub fn started(&mut self)
        ensures
            *final(self) == started_session(),
    {
        self.engine_loaded = true;
        self.running = true;
        self.has_stream = true;
    }

    /// Whether audio may be fed: a loaded engine, running, with a stream.
    pub fn can_feed(&self) -> (res: bool)
        ensures
            res == accepts_audio(*self),
    {
        self.engine_loaded && self.running && self.has_stream
    }

    /// Stops the session: recognition stops and the stream is closed, the
    /// engine kept for a cheap restart. Returns whether a stream was open, so
    /// that its tail is to be flushed.
    pub fn stop(&mut self) -> (flush: bool)
        ensures
            flush == stop_flushes(*old(self)),
            *final(self) == stopped_session(*old(self)),
    {
        if !self.engine_loaded {
            return false;
        }
        self.running = false;
        let flush = self.has_stream;
        self.has_stream = false;
        flush
    }
}

/// A started session accepts audio; a stopped one accepts none but keeps its
/// engine for a cheap restart, and stopping it again flushes nothing and
/// changes nothing.
pub proof fn law_session_lifecycle(s: AsrSession)
    ensures
        accepts_audio(started_session()),
        stopped_session(s).engine_loaded == s.engine_loaded,
        !accepts_audio(stopped_session(s)),
        !stop_flushes(stopped_session(s)),
        stopped_session(stopped_session(s)) == stopped_session(s),
{
}

/// What one decoded result is reported as.
pub enum FeedOutcome {
    /// Nothing recognised yet.
    Nothing,
    /// Text of the utterance in progress.
    Partial(String),
    /// A finished utterance; the stream is reset after it.
    Final(String),
}

/// What a decoded result is reported as: nothing for empty (trimmed) text, a
/// finished utterance at an endpoint, else the utterance in progress.
pub open spec fn feed_outcome_spec(raw: Seq<char>, is_endpoint: bool) -> (bool, bool, Seq<char>) {
    let t = trimmed(raw);
    if t.len() == 0 {
        (false, false, t)
    } else if is_endpoint {
        (true, true, t)
    } else {
        (true, false, t)
    }
}

impl FeedOutcome {
    /// Whether something is reported, whether it is final, and its text.
    pub open spec fn parts(&self) -> (bool, bool, Seq<char>) {
        match self {
            FeedOutcome::Nothing => (false, false, Seq::empty()),
            FeedOutcome::Partial(t) => (true, false, t@),
            FeedOutcome::Final(t) => (true, true, t@),
        }
    }
}

/// Classifies a decoded result: the recognised text is trimmed; empty text
/// reports nothing, text at an endpoint is final (and the stream is to be
/// reset), other text is partial.
pub fn feed_outcome(raw_text: &str, is_endpoint: bool) -> (res: FeedOutcome)
    ensures
        res.parts() == feed_outcome_spec(raw_text@, is_endpoint),
{
    let t = trim_chars(&chars_of(raw_text));
    if t.len() == 0 {
        assert(t@ =~= Seq::<char>::empty());
        FeedOutcome::Nothing
    } else if is_endpoint {
        FeedOutcome::Final(string_of_chars(&t))
    } else {
        FeedOutcome::Partial(string_of_chars(&t))
    }
}

/// A decoded result is reported exactly when it holds a character that is
/// not whitespace, and as final exactly when it is reported at an endpoint.
/// The reported text is the result without its leading and trailing
/// whitespace: a run of consecutive characters of it (inner spaces kept) with
/// only whitespace around it, neither starting nor ending with whitespace.
pub proof fn law_feed_reports_trimmed_text(raw: Seq<char>, is_endpoint: bool)
    ensures
        feed_outcome_spec(raw, is_endpoint).0 <==> !is_blank(raw),
        feed_outcome_spec(raw, is_endpoint).1 <==> (!is_blank(raw) && is_endpoint),
        exists|lo: int, hi: int|
            {
                &&& 0 <= lo <= hi <= raw.len()
                &&& feed_outcome_spec(raw, is_endpoint).2 == #[trigger] raw.subrange(lo, hi)
                &&& forall|j: int| 0 <= j < lo ==> is_white_space(#[trigger] raw[j])
                &&& forall|j: int| hi <= j < raw.len() ==> is_white_space(#[trigger] raw[j])
            },
        feed_outcome_spec(raw, is_endpoint).2.len() > 0 ==> {
            let t = feed_outcome_spec(raw, is_endpoint).2;
            !is_white_space(t[0]) && !is_white_space(t.last())
        },
{
    law_trim_keeps_inner_text(raw);
}

/// The text left when the session stops: the flushed result, trimmed.
pub fn final_text(raw_text: &str) -> (res: String)
    ensures
        res@ == trimmed(raw_text@),
{
    string_of_chars(&trim_chars(&chars_of(raw_text)))
}

} // verus!
