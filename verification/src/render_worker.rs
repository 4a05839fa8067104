//! Rendering a replay to video: what is run, and with which arguments.
use vstd::prelude::*;
use crate::paths::{
    join, joined, with_ext, with_extension, with_file_name, with_name, PathStyle,
};
use crate::text::{
    begins_with, decimal_text, ends_with, finishes_with, opt_text, push_decimal,
    text_holds_its_parts, texts,
};

verus! {

broadcast use vstd::string::group_string_axioms;

/// A replay to render.
#[derive(Debug, Clone)]
pub struct RenderRequest {
    pub slp_path: String,
    /// The hash of the replay.
    pub slp_hash: String,
    pub melee_iso: String,
    pub dolphin_binary: String,
    pub ffmpeg_binary: String,
    /// Where the video goes.
    pub mp4_out: String,
}

impl RenderRequest {
    /// Where the video is written until it is whole.
    pub fn partial_out(&self, style: PathStyle) -> (r: String)
        ensures
            r@ == with_ext(style, self.mp4_out@, "tmp"@),
    {
        with_extension(style, self.mp4_out.as_str(), "tmp")
    }

    /// The `ffprobe` beside `ffmpeg`.
    pub fn ffprobe_binary(&self, style: PathStyle) -> (r: String)
        ensures
            r@ == with_name(style, self.ffmpeg_binary@, "ffprobe"@),
    {
        with_file_name(style, self.ffmpeg_binary.as_str(), "ffprobe")
    }
}

/// What the worker reports.
#[derive(Debug)]
pub enum RenderMsg {
    Progress(String),
    /// The video, or why there is none.
    Done(Result<String, String>),
}

fn flag(name: &str, value: &str) -> (r: String)
    ensures
        r@ == name@ + value@,
{
    let mut out = name.to_owned();
    out.append(value);
    out
}

/// The arguments that make Dolphin play a movie.
pub open spec fn dolphin_args(iso: Seq<char>, dtm: Seq<char>, user_dir: Seq<char>) -> Seq<Seq<char>> {
    seq!["--exec="@ + iso, "--movie="@ + dtm, "--user="@ + user_dir]
}

/// The arguments that make Dolphin play a movie.
pub fn build_dolphin_argv(iso: &str, dtm: &str, user_dir: &str) -> (r: Vec<String>)
    ensures
        texts(r@) == dolphin_args(iso@, dtm@, user_dir@),
{
    let mut out: Vec<String> = Vec::new();
    out.push(flag("--exec=", iso));
    out.push(flag("--movie=", dtm));
    out.push(flag("--user=", user_dir));
    assert(texts(out@) =~= dolphin_args(iso@, dtm@, user_dir@));
    out
}

/// The arguments that make ffmpeg join a video and its two sound tracks, the
/// tracks from `offset` seconds on.
pub open spec fn ffmpeg_args(
    video: Seq<char>,
    dsp: Seq<char>,
    dtk: Seq<char>,
    offset: Seq<char>,
    out: Seq<char>,
) -> Seq<Seq<char>> {
    seq![
        "-hide_banner"@,
        "-loglevel"@,
        "error"@,
        "-y"@,
        "-i"@,
        video,
        "-ss"@,
        offset,
        "-i"@,
        dsp,
        "-ss"@,
        offset,
        "-i"@,
        dtk,
        "-filter_complex"@,
        "[1:a][2:a]amix=inputs=2:duration=shortest"@,
        "-c:v"@,
        "libx264"@,
        "-preset"@,
        "veryfast"@,
        "-crf"@,
        "23"@,
        "-c:a"@,
        "aac"@,
        "-b:a"@,
        "192k"@,
        "-shortest"@,
        out,
    ]
}

fn push_text(v: &mut Vec<String>, s: &str)
    ensures
        texts(final(v)@) == texts(old(v)@).push(s@),
{
    let ghost before = v@;
    v.push(s.to_owned());
    assert(texts(v@) =~= texts(before).push(s@));
}

/// The arguments that make ffmpeg join a video and its two sound tracks. The
/// offset is in seconds, as it is to be written.
pub fn build_ffmpeg_argv(video: &str, dsp: &str, dtk: &str, offset: &str, out: &str) -> (r: Vec<String>)
    ensures
        texts(r@) == ffmpeg_args(video@, dsp@, dtk@, offset@, out@),
{
    let mut v: Vec<String> = Vec::new();
    assert(texts(v@) =~= seq![]);
    push_text(&mut v, "-hide_banner");
    push_text(&mut v, "-loglevel");
    push_text(&mut v, "error");
    push_text(&mut v, "-y");
    push_text(&mut v, "-i");
    push_text(&mut v, video);
    push_text(&mut v, "-ss");
    push_text(&mut v, offset);
    push_text(&mut v, "-i");
    push_text(&mut v, dsp);
    push_text(&mut v, "-ss");
    push_text(&mut v, offset);
    push_text(&mut v, "-i");
    push_text(&mut v, dtk);
    push_text(&mut v, "-filter_complex");
    push_text(&mut v, "[1:a][2:a]amix=inputs=2:duration=shortest");
    push_text(&mut v, "-c:v");
    push_text(&mut v, "libx264");
    push_text(&mut v, "-preset");
    push_text(&mut v, "veryfast");
    push_text(&mut v, "-crf");
    push_text(&mut v, "23");
    push_text(&mut v, "-c:a");
    push_text(&mut v, "aac");
    push_text(&mut v, "-b:a");
    push_text(&mut v, "192k");
    push_text(&mut v, "-shortest");
    push_text(&mut v, out);
    assert(texts(v@) =~= ffmpeg_args(video@, dsp@, dtk@, offset@, out@));
    v
}

/// The Dolphin settings that dump frames and sound.
pub open spec fn dolphin_settings() -> Seq<char> {
    "[Core]\nCPUCore = 0\nSIDevice0 = 6\nSIDevice1 = 6\nSlotA = 8\nSlotB = 255\n\n[Movie]\nDumpFrames = True\nDumpFramesSilent = True\n\n[DSP]\nDumpAudio = True\nDumpAudioSilent = True\n"@
}

/// The Dolphin settings that dump frames and sound.
pub fn dolphin_ini() -> (r: &'static str)
    ensures
        r@ == dolphin_settings(),
{
    "[Core]\nCPUCore = 0\nSIDevice0 = 6\nSIDevice1 = 6\nSlotA = 8\nSlotB = 255\n\n[Movie]\nDumpFrames = True\nDumpFramesSilent = True\n\n[DSP]\nDumpAudio = True\nDumpAudioSilent = True\n"
}

/// The graphics settings that dump frames as a video.
pub open spec fn gfx_settings() -> Seq<char> {
    "[Settings]\nDumpFrames = True\nDumpFramesAsImages = False\n"@
}

/// The graphics settings that dump frames as a video.
pub fn gfx_ini() -> (r: &'static str)
    ensures
        r@ == gfx_settings(),
{
    "[Settings]\nDumpFrames = True\nDumpFramesAsImages = False\n"
}

/// The first name that ends in `suffix`.
pub open spec fn first_ending(names: Seq<Seq<char>>, suffix: Seq<char>) -> Option<Seq<char>>
    decreases names.len(),
{
    if names.len() == 0 {
        None
    } else if finishes_with(names[0], suffix) {
        Some(names[0])
    } else {
        first_ending(names.drop_first(), suffix)
    }
}

/// The first file of a directory whose name ends in `suffix`.
pub fn first_file_ending(dir: &str, names: &Vec<String>, suffix: &str, style: PathStyle) -> (r: Option<
    String,
>)
    ensures
        opt_text(r) == (match first_ending(texts(names@), suffix@) {
            Some(name) => Some(joined(style, dir@, name)),
            None => None,
        }),
{
    let ghost all = texts(names@);
    let mut i: usize = 0;
    assert(all.skip(0) =~= all);
    while i < names.len()
        invariant
            all == texts(names@),
            i <= names.len(),
            first_ending(all, suffix@) == first_ending(all.skip(i as int), suffix@),
        decreases names.len() - i,
    {
        assert(all.skip(i as int)[0] == names@[i as int]@);
        assert(all.skip(i as int).drop_first() =~= all.skip(i + 1));
        if ends_with(names[i].as_str(), suffix) {
            return Some(join(style, dir, names[i].as_str()));
        }
        i += 1;
    }
    None
}

/// What Dolphin dumped.
#[derive(Debug)]
pub struct DumpFiles {
    pub avi: String,
    pub dsp: String,
    pub dtk: String,
}

/// The directories below `user_dir` where Dolphin dumps frames and sound.
pub fn dump_dirs(user_dir: &str, style: PathStyle) -> (r: (String, String))
    ensures
        (r.0@, r.1@) == (
            joined(style, joined(style, user_dir@, "Dump"@), "Frames"@),
            joined(style, joined(style, user_dir@, "Dump"@), "Audio"@),
        ),
{
    let dump = join(style, user_dir, "Dump");
    (join(style, dump.as_str(), "Frames"), join(style, dump.as_str(), "Audio"))
}

/// What Dolphin dumped: a video, and the two sound tracks. `frames` and `audio`
/// are the names in the two directories; the error is the ending that none of
/// them has.
pub fn find_dump_files(
    user_dir: &str,
    frames: &Vec<String>,
    audio: &Vec<String>,
    style: PathStyle,
) -> (r: Result<DumpFiles, &'static str>)
    ensures
        ({
            let frames_dir = joined(style, joined(style, user_dir@, "Dump"@), "Frames"@);
            let audio_dir = joined(style, joined(style, user_dir@, "Dump"@), "Audio"@);
            let avi = first_ending(texts(frames@), ".avi"@);
            let dsp = first_ending(texts(audio@), "_dspdump.wav"@);
            let dtk = first_ending(texts(audio@), "_dtkdump.wav"@);
            match r {
                Ok(d) => avi is Some && dsp is Some && dtk is Some && d.avi@ == joined(
                    style,
                    frames_dir,
                    avi->0,
                ) && d.dsp@ == joined(style, audio_dir, dsp->0) && d.dtk@ == joined(style, audio_dir, dtk->0),
                Err(e) => if avi is None {
                    e@ == ".avi"@
                } else if dsp is None {
                    e@ == "_dspdump.wav"@
                } else {
                    dtk is None && e@ == "_dtkdump.wav"@
                },
            }
        }),
{
    let (frames_dir, audio_dir) = dump_dirs(user_dir, style);
    let avi = match first_file_ending(frames_dir.as_str(), frames, ".avi", style) {
        Some(p) => p,
        None => {
            return Err(".avi");
        },
    };
    let dsp = match first_file_ending(audio_dir.as_str(), audio, "_dspdump.wav", style) {
        Some(p) => p,
        None => {
            return Err("_dspdump.wav");
        },
    };
    let dtk = match first_file_ending(audio_dir.as_str(), audio, "_dtkdump.wav", style) {
        Some(p) => p,
        None => {
            return Err("_dtkdump.wav");
        },
    };
    Ok(DumpFiles { avi, dsp, dtk })
}

/// The name of the directory of a render that starts at an instant.
pub fn render_dir_name(nanos: u128) -> (r: String)
    ensures
        r@ == "stats-melee-render-"@ + decimal_text(nanos as nat),
{
    let mut out = "stats-melee-render-".to_owned();
    push_decimal(&mut out, nanos);
    out
}

/// An instant, in seconds since 1970, as the log names it.
pub fn chrono_like(secs: u64) -> (r: String)
    ensures
        r@ == "epoch+"@ + decimal_text(secs as nat) + "s"@,
{
    let mut out = "epoch+".to_owned();
    push_decimal(&mut out, secs as u128);
    out.append("s");
    out
}

/// Whether a file is a save of the memory card.
pub fn is_save(name: &str) -> (r: bool)
    ensures
        r == finishes_with(name@, ".gci"@),
{
    ends_with(name, ".gci")
}

/// Where the log of a render is kept.
pub const DEBUG_LOG_PATH: &'static str = "/tmp/stats-melee-render-debug.log";

/// How far a render has come: the step that is being done.
#[derive(Debug, Clone, Copy, PartialEq, Eq, Structural)]
pub enum RenderStage {
    /// The movie is being made from the replay.
    MakeMovie,
    CreateDir,
    CreateConfig,
    WriteDolphinIni,
    WriteGfxIni,
    /// Saves are being copied, so that the game asks for none.
    SeedSaves,
    WriteMovie,
    RunDolphin,
    ListDumps,
    ProbeVideo,
    ProbeSound,
    RunFfmpeg,
    /// The whole video is being put in its place.
    Rename,
    RemoveDir,
    Over,
}

impl RenderStage {
    /// The step that comes next.
    pub open spec fn following(self) -> RenderStage {
        match self {
            RenderStage::MakeMovie => RenderStage::CreateDir,
            RenderStage::CreateDir => RenderStage::CreateConfig,
            RenderStage::CreateConfig => RenderStage::WriteDolphinIni,
            RenderStage::WriteDolphinIni => RenderStage::WriteGfxIni,
            RenderStage::WriteGfxIni => RenderStage::SeedSaves,
            RenderStage::SeedSaves => RenderStage::WriteMovie,
            RenderStage::WriteMovie => RenderStage::RunDolphin,
            RenderStage::RunDolphin => RenderStage::ListDumps,
            RenderStage::ListDumps => RenderStage::ProbeVideo,
            RenderStage::ProbeVideo => RenderStage::ProbeSound,
            RenderStage::ProbeSound => RenderStage::RunFfmpeg,
            RenderStage::RunFfmpeg => RenderStage::Rename,
            RenderStage::Rename => RenderStage::RemoveDir,
            RenderStage::RemoveDir => RenderStage::Over,
            RenderStage::Over => RenderStage::Over,
        }
    }

    fn next(self) -> (r: RenderStage)
        ensures
            r == self.following(),
    {
        match self {
            RenderStage::MakeMovie => RenderStage::CreateDir,
            RenderStage::CreateDir => RenderStage::CreateConfig,
            RenderStage::CreateConfig => RenderStage::WriteDolphinIni,
            RenderStage::WriteDolphinIni => RenderStage::WriteGfxIni,
            RenderStage::WriteGfxIni => RenderStage::SeedSaves,
            RenderStage::SeedSaves => RenderStage::WriteMovie,
            RenderStage::WriteMovie => RenderStage::RunDolphin,
            RenderStage::RunDolphin => RenderStage::ListDumps,
            RenderStage::ListDumps => RenderStage::ProbeVideo,
            RenderStage::ProbeVideo => RenderStage::ProbeSound,
            RenderStage::ProbeSound => RenderStage::RunFfmpeg,
            RenderStage::RunFfmpeg => RenderStage::Rename,
            RenderStage::Rename => RenderStage::RemoveDir,
            RenderStage::RemoveDir => RenderStage::Over,
            RenderStage::Over => RenderStage::Over,
        }
    }

    /// Whether a render goes on where the step fails.
    pub open spec fn is_optional(self) -> bool {
        self == RenderStage::SeedSaves || self == RenderStage::RemoveDir
    }

    /// How many steps are left.
    pub open spec fn steps_left(self) -> nat {
        match self {
            RenderStage::MakeMovie => 14,
            RenderStage::CreateDir => 13,
            RenderStage::CreateConfig => 12,
            RenderStage::WriteDolphinIni => 11,
            RenderStage::WriteGfxIni => 10,
            RenderStage::SeedSaves => 9,
            RenderStage::WriteMovie => 8,
            RenderStage::RunDolphin => 7,
            RenderStage::ListDumps => 6,
            RenderStage::ProbeVideo => 5,
            RenderStage::ProbeSound => 4,
            RenderStage::RunFfmpeg => 3,
            RenderStage::Rename => 2,
            RenderStage::RemoveDir => 1,
            RenderStage::Over => 0,
        }
    }
}

/// A render that is under way.
#[derive(Debug)]
pub struct RenderRun {
    pub request: RenderRequest,
    /// The directory that it works in.
    pub dir: String,
    /// How paths are written.
    pub style: PathStyle,
    pub stage: RenderStage,
    /// After how many seconds Dolphin is stopped.
    pub kill_after: u64,
    /// What Dolphin dumped.
    pub dumps: Option<DumpFiles>,
    /// Where the sound starts, in seconds, as it is to be written.
    pub offset: String,
    /// Why there is no video.
    pub failure: Option<String>,
}

/// How the step went.
#[derive(Debug)]
pub enum RenderEvent {
    Done,
    /// The movie is made; Dolphin is to be stopped after that many seconds.
    MovieMade(u64),
    /// The names in the directories of frames and of sound.
    Listed(Vec<String>, Vec<String>),
    /// Where the sound starts, in seconds, as it is to be written.
    Offset(String),
    Failed,
    /// It failed, in words of its own.
    FailedWith(String),
}

/// What is to be done.
#[derive(Debug)]
pub enum RenderAction {
    /// Make the movie of a replay.
    MakeMovie(String),
    CreateDir(String),
    /// Write a text to a file.
    WriteText(String, &'static str),
    /// Copy saves to below a directory.
    SeedSaves(String),
    /// Write the movie to a file.
    WriteMovie(String),
    /// Run a program with arguments, and stop it after that many seconds.
    RunDolphin(String, Vec<String>, u64),
    /// List two directories.
    ListDumps(String, String),
    /// Ask a program how long a file plays.
    Probe(String, String),
    /// Run a program with arguments.
    RunFfmpeg(String, Vec<String>),
    /// Move a file to where another may be.
    Rename(String, String),
    RemoveDir(String),
    /// Tell how the render went.
    Finish(Result<String, String>),
}

/// Whether an event can come of a step: each tells what the step was to find
/// out.
pub open spec fn fits(stage: RenderStage, event: RenderEvent) -> bool {
    match event {
        RenderEvent::Failed | RenderEvent::FailedWith(_) => stage != RenderStage::Over,
        RenderEvent::MovieMade(_) => stage == RenderStage::MakeMovie,
        RenderEvent::Listed(_, _) => stage == RenderStage::ListDumps,
        RenderEvent::Offset(_) => stage == RenderStage::ProbeSound,
        RenderEvent::Done => stage != RenderStage::MakeMovie && stage != RenderStage::ListDumps
            && stage != RenderStage::ProbeSound && stage != RenderStage::Over,
    }
}

/// Whether the names hold what Dolphin dumps.
pub open spec fn has_dumps(frames: Seq<Seq<char>>, audio: Seq<Seq<char>>) -> bool {
    first_ending(frames, ".avi"@) is Some && first_ending(audio, "_dspdump.wav"@) is Some
        && first_ending(audio, "_dtkdump.wav"@) is Some
}

impl RenderRun {
    /// The dumps are known from the step that finds them on.
    pub open spec fn wf(self) -> bool {
        &&& 2 < self.stage.steps_left() <= 5 ==> self.dumps is Some
        &&& self.failure is Some ==> self.stage == RenderStage::Over
    }

    pub open spec fn config_dir(self) -> Seq<char> {
        joined(self.style, self.dir@, "Config"@)
    }

    pub open spec fn movie_path(self) -> Seq<char> {
        joined(self.style, self.dir@, "run.dtm"@)
    }

    /// What is said where a step fails without words of its own.
    pub open spec fn failure_words(self) -> Seq<char> {
        match self.stage {
            RenderStage::MakeMovie => "generating DTM for "@ + self.request.slp_path@,
            RenderStage::CreateDir => "creating render dir "@ + self.dir@,
            RenderStage::CreateConfig => "creating "@ + self.config_dir(),
            RenderStage::WriteDolphinIni => "writing Dolphin.ini"@,
            RenderStage::WriteGfxIni => "writing GFX.ini"@,
            RenderStage::WriteMovie => "writing "@ + self.movie_path(),
            RenderStage::RunDolphin => "spawning "@ + self.request.dolphin_binary@,
            RenderStage::ListDumps => "no dump files in "@ + self.dir@ + "\nDiagnostic log: "@
                + DEBUG_LOG_PATH@,
            RenderStage::ProbeVideo => "running ffprobe on "@ + self.dumps->0.avi@,
            RenderStage::ProbeSound => "running ffprobe on "@ + self.dumps->0.dsp@,
            RenderStage::RunFfmpeg => "spawning "@ + self.request.ffmpeg_binary@,
            RenderStage::Rename => "renaming "@ + with_ext(
                self.style,
                self.request.mp4_out@,
                "tmp"@,
            ) + " → "@ + self.request.mp4_out@,
            RenderStage::SeedSaves | RenderStage::RemoveDir | RenderStage::Over => seq![],
        }
    }

    fn failure_text(&self) -> (r: String)
        requires
            self.wf(),
        ensures
            r@ == self.failure_words(),
    {
        let (avi, dsp): (&str, &str) = match &self.dumps {
            Some(d) => (d.avi.as_str(), d.dsp.as_str()),
            None => ("", ""),
        };
        match self.stage {
            RenderStage::MakeMovie => flag("generating DTM for ", self.request.slp_path.as_str()),
            RenderStage::CreateDir => flag("creating render dir ", self.dir.as_str()),
            RenderStage::CreateConfig => flag("creating ", join(self.style, self.dir.as_str(), "Config").as_str()),
            RenderStage::WriteDolphinIni => "writing Dolphin.ini".to_owned(),
            RenderStage::WriteGfxIni => "writing GFX.ini".to_owned(),
            RenderStage::WriteMovie => flag("writing ", join(self.style, self.dir.as_str(), "run.dtm").as_str()),
            RenderStage::RunDolphin => flag("spawning ", self.request.dolphin_binary.as_str()),
            RenderStage::ListDumps => {
                let mut out = flag("no dump files in ", self.dir.as_str());
                out.append("\nDiagnostic log: ");
                out.append(DEBUG_LOG_PATH);
                out
            },
            RenderStage::ProbeVideo => flag("running ffprobe on ", avi),
            RenderStage::ProbeSound => flag("running ffprobe on ", dsp),
            RenderStage::RunFfmpeg => flag("spawning ", self.request.ffmpeg_binary.as_str()),
            RenderStage::Rename => {
                let mut out = flag("renaming ", self.request.partial_out(self.style).as_str());
                out.append(" → ");
                out.append(self.request.mp4_out.as_str());
                out
            },
            RenderStage::SeedSaves | RenderStage::RemoveDir | RenderStage::Over => {
                let out = String::new();
                assert(out@ =~= seq![]);
                out
            },
        }
    }

    /// Whether an action is what the step that is being done asks for.
    pub open spec fn asks_for(self, action: RenderAction) -> bool {
        match self.stage {
            RenderStage::MakeMovie => action matches RenderAction::MakeMovie(p) && p@
                == self.request.slp_path@,
            RenderStage::CreateDir => action matches RenderAction::CreateDir(p) && p@ == self.dir@,
            RenderStage::CreateConfig => action matches RenderAction::CreateDir(p) && p@
                == self.config_dir(),
            RenderStage::WriteDolphinIni => action matches RenderAction::WriteText(p, t) && p@
                == joined(self.style, self.config_dir(), "Dolphin.ini"@) && t@ == dolphin_settings(),
            RenderStage::WriteGfxIni => action matches RenderAction::WriteText(p, t) && p@ == joined(
                self.style,
                self.config_dir(),
                "GFX.ini"@,
            ) && t@ == gfx_settings(),
            RenderStage::SeedSaves => action matches RenderAction::SeedSaves(p) && p@ == self.dir@,
            RenderStage::WriteMovie => action matches RenderAction::WriteMovie(p) && p@
                == self.movie_path(),
            RenderStage::RunDolphin => action matches RenderAction::RunDolphin(b, args, k) && b@
                == self.request.dolphin_binary@ && texts(args@) == dolphin_args(
                self.request.melee_iso@,
                self.movie_path(),
                self.dir@,
            ) && k == self.kill_after,
            RenderStage::ListDumps => action matches RenderAction::ListDumps(f, a) && f@ == joined(
                self.style,
                joined(self.style, self.dir@, "Dump"@),
                "Frames"@,
            ) && a@ == joined(self.style, joined(self.style, self.dir@, "Dump"@), "Audio"@),
            RenderStage::ProbeVideo => action matches RenderAction::Probe(b, p) && b@ == with_name(
                self.style,
                self.request.ffmpeg_binary@,
                "ffprobe"@,
            ) && p@ == self.dumps->0.avi@,
            RenderStage::ProbeSound => action matches RenderAction::Probe(b, p) && b@ == with_name(
                self.style,
                self.request.ffmpeg_binary@,
                "ffprobe"@,
            ) && p@ == self.dumps->0.dsp@,
            RenderStage::RunFfmpeg => action matches RenderAction::RunFfmpeg(b, args) && b@
                == self.request.ffmpeg_binary@ && texts(args@) == ffmpeg_args(
                self.dumps->0.avi@,
                self.dumps->0.dsp@,
                self.dumps->0.dtk@,
                self.offset@,
                with_ext(self.style, self.request.mp4_out@, "tmp"@),
            ),
            RenderStage::Rename => action matches RenderAction::Rename(from, to) && from@ == with_ext(
                self.style,
                self.request.mp4_out@,
                "tmp"@,
            ) && to@ == self.request.mp4_out@,
            RenderStage::RemoveDir => action matches RenderAction::RemoveDir(p) && p@ == self.dir@,
            RenderStage::Over => action matches RenderAction::Finish(result) && (match (
                self.failure,
                result,
            ) {
                (Some(w), Err(e)) => e@ == w@,
                (None, Ok(p)) => p@ == self.request.mp4_out@,
                _ => false,
            }),
        }
    }

    /// What the step that is being done asks for.
    pub fn action(&self) -> (r: RenderAction)
        requires
            self.wf(),
        ensures
            self.asks_for(r),
    {
        let (avi, dsp, dtk): (&str, &str, &str) = match &self.dumps {
            Some(d) => (d.avi.as_str(), d.dsp.as_str(), d.dtk.as_str()),
            None => ("", "", ""),
        };
        let config = join(self.style, self.dir.as_str(), "Config");
        let movie = join(self.style, self.dir.as_str(), "run.dtm");
        match self.stage {
            RenderStage::MakeMovie => RenderAction::MakeMovie(self.request.slp_path.clone()),
            RenderStage::CreateDir => RenderAction::CreateDir(self.dir.clone()),
            RenderStage::CreateConfig => RenderAction::CreateDir(config),
            RenderStage::WriteDolphinIni => RenderAction::WriteText(
                join(self.style, config.as_str(), "Dolphin.ini"),
                dolphin_ini(),
            ),
            RenderStage::WriteGfxIni => RenderAction::WriteText(
                join(self.style, config.as_str(), "GFX.ini"),
                gfx_ini(),
            ),
            RenderStage::SeedSaves => RenderAction::SeedSaves(self.dir.clone()),
            RenderStage::WriteMovie => RenderAction::WriteMovie(movie),
            RenderStage::RunDolphin => RenderAction::RunDolphin(
                self.request.dolphin_binary.clone(),
                build_dolphin_argv(self.request.melee_iso.as_str(), movie.as_str(), self.dir.as_str()),
                self.kill_after,
            ),
            RenderStage::ListDumps => {
                let (frames, audio) = dump_dirs(self.dir.as_str(), self.style);
                RenderAction::ListDumps(frames, audio)
            },
            RenderStage::ProbeVideo => RenderAction::Probe(
                self.request.ffprobe_binary(self.style),
                avi.to_owned(),
            ),
            RenderStage::ProbeSound => RenderAction::Probe(
                self.request.ffprobe_binary(self.style),
                dsp.to_owned(),
            ),
            RenderStage::RunFfmpeg => RenderAction::RunFfmpeg(
                self.request.ffmpeg_binary.clone(),
                build_ffmpeg_argv(
                    avi,
                    dsp,
                    dtk,
                    self.offset.as_str(),
                    self.request.partial_out(self.style).as_str(),
                ),
            ),
            RenderStage::Rename => RenderAction::Rename(
                self.request.partial_out(self.style),
                self.request.mp4_out.clone(),
            ),
            RenderStage::RemoveDir => RenderAction::RemoveDir(self.dir.clone()),
            RenderStage::Over => match &self.failure {
                Some(w) => RenderAction::Finish(Err(w.clone())),
                None => RenderAction::Finish(Ok(self.request.mp4_out.clone())),
            },
        }
    }

    /// What is told as a step starts, where anything is.
    pub fn progress(&self) -> (r: Option<String>)
        ensures
            match self.stage {
                RenderStage::MakeMovie => opt_text(r) == Some("Generating DTM"@),
                RenderStage::RunDolphin => opt_text(r) == Some(
                    "Rendering frames — leave Dolphin open (~"@ + decimal_text(
                        minutes_up(self.kill_after as nat),
                    ) + " min)"@,
                ),
                RenderStage::ProbeVideo => opt_text(r) == Some("Muxing video (ffmpeg)"@),
                _ => r is None,
            },
    {
        match self.stage {
            RenderStage::MakeMovie => Some("Generating DTM".to_owned()),
            RenderStage::RunDolphin => {
                let minutes: u128 = (self.kill_after as u128 + 59) / 60;
                let mut out = "Rendering frames — leave Dolphin open (~".to_owned();
                push_decimal(&mut out, minutes);
                out.append(" min)");
                Some(out)
            },
            RenderStage::ProbeVideo => Some("Muxing video (ffmpeg)".to_owned()),
            _ => None,
        }
    }

    /// A render of a request, in a directory that is yet to be made.
    pub fn start(request: RenderRequest, dir: String, style: PathStyle) -> (r: RenderRun)
        ensures
            r.wf(),
            r.request == request,
            r.dir == dir,
            r.style == style,
            r.stage == RenderStage::MakeMovie,
            r.kill_after == 0,
            r.dumps is None,
            r.offset@ == Seq::<char>::empty(),
            r.failure is None,
    {
        RenderRun {
            request,
            dir,
            style,
            stage: RenderStage::MakeMovie,
            kill_after: 0,
            dumps: None,
            offset: String::new(),
            failure: None,
        }
    }

    /// Whether `new` is `self` after its step failed with the given words.
    pub open spec fn fails_with(self, new: RenderRun, words: Seq<char>) -> bool {
        &&& opt_text(new.failure) == Some(words)
        &&& new == (RenderRun { stage: RenderStage::Over, failure: new.failure, ..self })
    }

    /// Whether `new` is `self` after an event: the next step with what was found
    /// out, or the end where a step fails that a render cannot do without.
    pub open spec fn goes_to(self, new: RenderRun, event: RenderEvent) -> bool {
        let ahead = RenderRun { stage: self.stage.following(), ..self };
        match event {
            RenderEvent::Done => new == ahead,
            RenderEvent::MovieMade(k) => new == (RenderRun { kill_after: k, ..ahead }),
            RenderEvent::Offset(o) => new == (RenderRun { offset: o, ..ahead }),
            RenderEvent::Listed(frames, audio) => if has_dumps(texts(frames@), texts(audio@)) {
                &&& new == (RenderRun { dumps: new.dumps, ..ahead })
                &&& new.dumps matches Some(d) && d.avi@ == joined(
                    self.style,
                    joined(self.style, joined(self.style, self.dir@, "Dump"@), "Frames"@),
                    first_ending(texts(frames@), ".avi"@)->0,
                ) && d.dsp@ == joined(
                    self.style,
                    joined(self.style, joined(self.style, self.dir@, "Dump"@), "Audio"@),
                    first_ending(texts(audio@), "_dspdump.wav"@)->0,
                ) && d.dtk@ == joined(
                    self.style,
                    joined(self.style, joined(self.style, self.dir@, "Dump"@), "Audio"@),
                    first_ending(texts(audio@), "_dtkdump.wav"@)->0,
                )
            } else {
                self.fails_with(new, self.failure_words())
            },
            RenderEvent::Failed => if self.stage.is_optional() {
                new == ahead
            } else {
                self.fails_with(new, self.failure_words())
            },
            RenderEvent::FailedWith(w) => if self.stage.is_optional() {
                new == ahead
            } else {
                self.fails_with(new, w@)
            },
        }
    }

    fn fail(&mut self, words: String)
        requires
            old(self).failure is None,
        ensures
            old(self).fails_with(*final(self), words@),
    {
        self.failure = Some(words);
        self.stage = RenderStage::Over;
    }

    /// Takes how the step went.
    pub fn advance(&mut self, event: RenderEvent)
        requires
            old(self).wf(),
            fits(old(self).stage, event),
        ensures
            final(self).wf(),
            old(self).goes_to(*final(self), event),
    {
        let optional: bool = self.stage == RenderStage::SeedSaves || self.stage
            == RenderStage::RemoveDir;
        match event {
            RenderEvent::Done => {
                self.stage = self.stage.next();
            },
            RenderEvent::MovieMade(k) => {
                self.kill_after = k;
                self.stage = self.stage.next();
            },
            RenderEvent::Offset(o) => {
                self.offset = o;
                self.stage = self.stage.next();
            },
            RenderEvent::Listed(frames, audio) => {
                match find_dump_files(self.dir.as_str(), &frames, &audio, self.style) {
                    Ok(d) => {
                        self.dumps = Some(d);
                        self.stage = self.stage.next();
                    },
                    Err(_) => {
                        let words = self.failure_text();
                        self.fail(words);
                    },
                }
            },
            RenderEvent::Failed => {
                if optional {
                    self.stage = self.stage.next();
                } else {
                    let words = self.failure_text();
                    self.fail(words);
                }
            },
            RenderEvent::FailedWith(words) => {
                if optional {
                    self.stage = self.stage.next();
                } else {
                    self.fail(words);
                }
            },
        }
    }
}

/// What is to be done about Dolphin while it runs.
#[derive(Debug, Clone, Copy, PartialEq, Eq, Structural)]
pub enum DolphinStep {
    /// Nothing more: it has ended.
    Done,
    /// It is to be stopped.
    Kill,
    /// It is to be left alone for that many seconds.
    Sleep(u64),
}

/// What is to be done about Dolphin, `elapsed` seconds after it was started.
pub open spec fn dolphin_step(exited: bool, elapsed: u64, kill_after: u64) -> DolphinStep {
    if exited {
        DolphinStep::Done
    } else if elapsed >= kill_after {
        DolphinStep::Kill
    } else {
        DolphinStep::Sleep(30)
    }
}

/// What is to be done about Dolphin, `elapsed` seconds after it was started.
pub fn poll_dolphin(exited: bool, elapsed: u64, kill_after: u64) -> (r: DolphinStep)
    ensures
        r == dolphin_step(exited, elapsed, kill_after),
{
    if exited {
        DolphinStep::Done
    } else if elapsed >= kill_after {
        DolphinStep::Kill
    } else {
        DolphinStep::Sleep(30)
    }
}

/// Seconds in minutes, rounded up.
pub open spec fn minutes_up(secs: nat) -> nat {
    (secs + 59) / 60
}

/// Every event brings a render nearer to its end.
pub proof fn renders_end(run: RenderRun, new: RenderRun, event: RenderEvent)
    requires
        run.wf(),
        fits(run.stage, event),
        run.goes_to(new, event),
    ensures
        new.stage.steps_left() < run.stage.steps_left(),
{
}

/// A render tells of a video only after the whole video was put in its place.
pub proof fn videos_are_whole(run: RenderRun, new: RenderRun, event: RenderEvent, action: RenderAction)
    requires
        run.wf(),
        fits(run.stage, event),
        run.goes_to(new, event),
        new.asks_for(action),
        action matches RenderAction::Finish(Ok(_)),
    ensures
        run.stage == RenderStage::RemoveDir,
{
}

/// A render whose steps all succeed or are optional tells of its video.
pub proof fn successful_steps_lead_on(run: RenderRun, new: RenderRun, event: RenderEvent)
    requires
        run.wf(),
        fits(run.stage, event),
        run.goes_to(new, event),
        run.failure is None,
        !(event is Failed) && !(event is FailedWith) || run.stage.is_optional(),
        event matches RenderEvent::Listed(frames, audio) ==> has_dumps(
            texts(frames@),
            texts(audio@),
        ),
    ensures
        new.failure is None,
        new.stage == run.stage.following(),
{
}

/// Steps come one by one: after each there is one step less to do.
pub proof fn steps_come_one_by_one(stage: RenderStage)
    ensures
        stage != RenderStage::Over ==> stage.following().steps_left() == stage.steps_left() - 1,
        stage.steps_left() == 0 <==> stage == RenderStage::Over,
        stage.following() == RenderStage::Over ==> stage == RenderStage::RemoveDir || stage
            == RenderStage::Over,
{
}

/// What a step needs is done before it: directories are made before anything is
/// written to them, everything is written before Dolphin runs, what it dumps is
/// looked for, measured and joined after that, and only then is the video put
/// in its place and the directory removed.
pub proof fn steps_come_in_order()
    ensures
        RenderStage::MakeMovie.steps_left() > RenderStage::WriteMovie.steps_left(),
        RenderStage::CreateDir.steps_left() > RenderStage::CreateConfig.steps_left(),
        RenderStage::CreateConfig.steps_left() > RenderStage::WriteDolphinIni.steps_left(),
        RenderStage::CreateConfig.steps_left() > RenderStage::WriteGfxIni.steps_left(),
        RenderStage::CreateDir.steps_left() > RenderStage::SeedSaves.steps_left(),
        RenderStage::CreateDir.steps_left() > RenderStage::WriteMovie.steps_left(),
        RenderStage::WriteDolphinIni.steps_left() > RenderStage::RunDolphin.steps_left(),
        RenderStage::WriteGfxIni.steps_left() > RenderStage::RunDolphin.steps_left(),
        RenderStage::SeedSaves.steps_left() > RenderStage::RunDolphin.steps_left(),
        RenderStage::WriteMovie.steps_left() > RenderStage::RunDolphin.steps_left(),
        RenderStage::RunDolphin.steps_left() > RenderStage::ListDumps.steps_left(),
        RenderStage::ListDumps.steps_left() > RenderStage::ProbeVideo.steps_left(),
        RenderStage::ProbeVideo.steps_left() > RenderStage::ProbeSound.steps_left(),
        RenderStage::ProbeSound.steps_left() > RenderStage::RunFfmpeg.steps_left(),
        RenderStage::RunFfmpeg.steps_left() > RenderStage::Rename.steps_left(),
        RenderStage::Rename.steps_left() > RenderStage::RemoveDir.steps_left(),
{
}

/// Whatever comes of a step, what is rendered, where and how stays the same, and
/// so does what was found out before: only a movie that was made tells when to
/// stop Dolphin, only a listing what it dumped, only a measure where the sound
/// starts.
pub proof fn events_keep_what_is_known(run: RenderRun, new: RenderRun, event: RenderEvent)
    requires
        run.goes_to(new, event),
    ensures
        new.request == run.request,
        new.dir == run.dir,
        new.style == run.style,
        event matches RenderEvent::MovieMade(k) ==> new.kill_after == k,
        !(event is MovieMade) ==> new.kill_after == run.kill_after,
        !(event is Listed) ==> new.dumps == run.dumps,
        event matches RenderEvent::Offset(o) ==> new.offset == o,
        !(event is Offset) ==> new.offset == run.offset,
{
}

/// A step that fails ends a render, and the reason is kept; the saves and the
/// directory are no such reason.
pub proof fn failures_end_a_render(run: RenderRun, new: RenderRun, event: RenderEvent)
    requires
        run.goes_to(new, event),
        event is Failed || event is FailedWith,
        run.failure is None,
    ensures
        run.stage == RenderStage::SeedSaves || run.stage == RenderStage::RemoveDir ==> new.failure is None
            && new.stage == run.stage.following(),
        run.stage != RenderStage::SeedSaves && run.stage != RenderStage::RemoveDir ==> new.failure is Some
            && new.stage == RenderStage::Over,
        event matches RenderEvent::FailedWith(w) ==> new.failure is None || new.failure->0@ == w@,
{
}

/// Where one of the three files that Dolphin dumps is missing, a render ends.
pub proof fn missing_dumps_end_a_render(
    run: RenderRun,
    new: RenderRun,
    frames: Vec<String>,
    audio: Vec<String>,
)
    requires
        run.goes_to(new, RenderEvent::Listed(frames, audio)),
        run.failure is None,
    ensures
        (forall|i: int| 0 <= i < frames@.len() ==> !finishes_with((#[trigger] frames@[i])@, ".avi"@))
            ==> new.stage == RenderStage::Over && new.failure is Some,
        (forall|i: int|
            0 <= i < audio@.len() ==> !finishes_with((#[trigger] audio@[i])@, "_dspdump.wav"@))
            ==> new.stage == RenderStage::Over && new.failure is Some,
        (forall|i: int|
            0 <= i < audio@.len() ==> !finishes_with((#[trigger] audio@[i])@, "_dtkdump.wav"@))
            ==> new.stage == RenderStage::Over && new.failure is Some,
        new.failure is None ==> new.dumps is Some,
{
    let (f, a) = (texts(frames@), texts(audio@));
    assert forall|i: int| 0 <= i < f.len() implies #[trigger] f[i] == frames@[i]@ by {}
    assert forall|i: int| 0 <= i < a.len() implies #[trigger] a[i] == audio@[i]@ by {}
    first_names_come_first(f, ".avi"@);
    first_names_come_first(a, "_dspdump.wav"@);
    first_names_come_first(a, "_dtkdump.wav"@);
}

/// The name that is taken ends as it should, and no name before it does; none
/// is taken only where none does.
pub proof fn first_names_come_first(names: Seq<Seq<char>>, suffix: Seq<char>)
    ensures
        first_ending(names, suffix) is None <==> forall|i: int|
            0 <= i < names.len() ==> !finishes_with(#[trigger] names[i], suffix),
        forall|i: int|
            0 <= i < names.len() && finishes_with(#[trigger] names[i], suffix) && (forall|j: int|
                0 <= j < i ==> !finishes_with(#[trigger] names[j], suffix)) ==> first_ending(
                names,
                suffix,
            ) == Some(names[i]),
    decreases names.len(),
{
    if names.len() > 0 {
        let rest = names.drop_first();
        first_names_come_first(rest, suffix);
        assert forall|i: int| 0 <= i < rest.len() implies #[trigger] rest[i] == names[i + 1] by {}
        if !finishes_with(names[0], suffix) {
            assert forall|i: int|
                0 <= i < names.len() && finishes_with(#[trigger] names[i], suffix) && (forall|j: int|
                    0 <= j < i ==> !finishes_with(#[trigger] names[j], suffix)) implies first_ending(
                names,
                suffix,
            ) == Some(names[i]) by {
                assert(rest[i - 1] == names[i]);
                assert forall|j: int| 0 <= j < i - 1 implies !finishes_with(
                    #[trigger] rest[j],
                    suffix,
                ) by {
                    assert(!finishes_with(names[j + 1], suffix));
                }
            }
            if first_ending(names, suffix) is None {
                assert forall|i: int| 0 <= i < names.len() implies !finishes_with(
                    #[trigger] names[i],
                    suffix,
                ) by {
                    if i > 0 {
                        assert(rest[i - 1] == names[i]);
                    }
                }
            }
            if forall|i: int| 0 <= i < names.len() ==> !finishes_with(#[trigger] names[i], suffix) {
                assert forall|i: int| 0 <= i < rest.len() implies !finishes_with(
                    #[trigger] rest[i],
                    suffix,
                ) by {
                    assert(!finishes_with(names[i + 1], suffix));
                }
            }
        }
    }
}

/// Dolphin is given three things: the disc image to run, the movie to play, and
/// the directory to work in.
pub proof fn dolphin_is_given_three_things(iso: Seq<char>, dtm: Seq<char>, user_dir: Seq<char>)
    ensures
        dolphin_args(iso, dtm, user_dir).len() == 3,
        begins_with(dolphin_args(iso, dtm, user_dir)[0], "--exec="@),
        finishes_with(dolphin_args(iso, dtm, user_dir)[0], iso),
        begins_with(dolphin_args(iso, dtm, user_dir)[1], "--movie="@),
        finishes_with(dolphin_args(iso, dtm, user_dir)[1], dtm),
        begins_with(dolphin_args(iso, dtm, user_dir)[2], "--user="@),
        finishes_with(dolphin_args(iso, dtm, user_dir)[2], user_dir),
{
    let none = Seq::<char>::empty();
    text_holds_its_parts("--exec="@, iso, none);
    text_holds_its_parts(none, "--exec="@, iso);
    text_holds_its_parts("--movie="@, dtm, none);
    text_holds_its_parts(none, "--movie="@, dtm);
    text_holds_its_parts("--user="@, user_dir, none);
    text_holds_its_parts(none, "--user="@, user_dir);
}

/// ffmpeg reads the video as it is and each of the two tracks from where the
/// sound starts, and writes to what is named last; nothing else that it is told
/// depends on them.
pub proof fn ffmpeg_reads_three_files(
    video: Seq<char>,
    dsp: Seq<char>,
    dtk: Seq<char>,
    offset: Seq<char>,
    out: Seq<char>,
    other: (Seq<char>, Seq<char>, Seq<char>, Seq<char>, Seq<char>),
)
    ensures
        ({
            let a = ffmpeg_args(video, dsp, dtk, offset, out);
            let b = ffmpeg_args(other.0, other.1, other.2, other.3, other.4);
            &&& a.len() == b.len()
            &&& a.last() == out
            &&& a[4] == "-i"@ && a[5] == video
            &&& a[6] == "-ss"@ && a[7] == offset && a[8] == "-i"@ && a[9] == dsp
            &&& a[10] == "-ss"@ && a[11] == offset && a[12] == "-i"@ && a[13] == dtk
            &&& a.take(5) == b.take(5)
            &&& a.subrange(14, a.len() - 1) == b.subrange(14, b.len() - 1)
        }),
{
    let a = ffmpeg_args(video, dsp, dtk, offset, out);
    let b = ffmpeg_args(other.0, other.1, other.2, other.3, other.4);
    assert(a.len() == 28 && b.len() == 28);
    assert(a.take(5) =~= b.take(5));
    assert(a.subrange(14, 27) =~= b.subrange(14, 27));
}

/// The run as it stands at another of its steps.
pub open spec fn at_step(run: RenderRun, stage: RenderStage) -> RenderRun {
    RenderRun { stage, ..run }
}

/// Dolphin plays the movie that was written, from the request's disc image, in
/// the directory that was made, and the directory that was made is the one that
/// is removed.
pub proof fn dolphin_plays_what_was_written(
    run: RenderRun,
    made: RenderAction,
    written: RenderAction,
    ran: RenderAction,
    removed: RenderAction,
)
    requires
        at_step(run, RenderStage::CreateDir).asks_for(made),
        at_step(run, RenderStage::WriteMovie).asks_for(written),
        at_step(run, RenderStage::RunDolphin).asks_for(ran),
        at_step(run, RenderStage::RemoveDir).asks_for(removed),
    ensures
        made matches RenderAction::CreateDir(d) && d@ == run.dir@,
        removed matches RenderAction::RemoveDir(d) && d@ == run.dir@,
        written matches RenderAction::WriteMovie(m) && (ran matches RenderAction::RunDolphin(b, args, k)
            && b@ == run.request.dolphin_binary@ && k == run.kill_after && args@.len() == 3
            && args@[0]@ == "--exec="@ + run.request.melee_iso@ && args@[1]@ == "--movie="@ + m@
            && args@[2]@ == "--user="@ + run.dir@),
{
    if let RenderAction::RunDolphin(b, args, k) = ran {
        let want = dolphin_args(run.request.melee_iso@, run.movie_path(), run.dir@);
        assert(texts(args@) == want);
        assert(want.len() == 3);
        assert(args@.len() == 3);
        assert forall|i: int| 0 <= i < 3 implies (#[trigger] args@[i])@ == want[i] by {
            assert(texts(args@)[i] == args@[i]@);
        }
        assert(args@[0]@ == want[0] && args@[1]@ == want[1] && args@[2]@ == want[2]);
    }
}

/// ffmpeg joins what Dolphin dumped; what it writes is then moved to where the
/// request wants the video, and that is what is told in the end.
pub proof fn videos_are_written_aside(
    run: RenderRun,
    joining: RenderAction,
    moving: RenderAction,
    telling: RenderAction,
)
    requires
        run.dumps is Some,
        at_step(run, RenderStage::RunFfmpeg).asks_for(joining),
        at_step(run, RenderStage::Rename).asks_for(moving),
        at_step(RenderRun { failure: None, ..run }, RenderStage::Over).asks_for(telling),
    ensures
        joining matches RenderAction::RunFfmpeg(b, args) && b@ == run.request.ffmpeg_binary@ && (
        moving matches RenderAction::Rename(from, to) && args@.len() > 0 && args@.last()@ == from@
            && to@ == run.request.mp4_out@),
        telling matches RenderAction::Finish(Ok(p)) && p@ == run.request.mp4_out@,
{
    if let RenderAction::RunFfmpeg(b, args) = joining {
        let n = args@.len() - 1;
        let all = ffmpeg_args(
            run.dumps->0.avi@,
            run.dumps->0.dsp@,
            run.dumps->0.dtk@,
            run.offset@,
            with_ext(run.style, run.request.mp4_out@, "tmp"@),
        );
        assert(texts(args@) == all);
        assert(all.len() == 28);
        assert(texts(args@)[n] == args@[n]@);
    }
}

/// A render that failed tells the reason that was kept, and nothing of a video.
pub proof fn failed_renders_tell_why(run: RenderRun, telling: RenderAction)
    requires
        run.stage == RenderStage::Over,
        run.failure is Some,
        run.asks_for(telling),
    ensures
        telling matches RenderAction::Finish(Err(e)) && e@ == run.failure->0@,
{
}

/// Every step but the last can succeed and can fail, and only the step that was
/// to find something out tells it.
pub proof fn steps_can_go_either_way(stage: RenderStage, k: u64, o: String, f: Vec<String>, a: Vec<String>)
    requires
        stage != RenderStage::Over,
    ensures
        fits(stage, RenderEvent::Failed),
        fits(stage, RenderEvent::Done) || fits(stage, RenderEvent::MovieMade(k)) || fits(
            stage,
            RenderEvent::Offset(o),
        ) || fits(stage, RenderEvent::Listed(f, a)),
        fits(stage, RenderEvent::MovieMade(k)) <==> stage == RenderStage::MakeMovie,
        fits(stage, RenderEvent::Listed(f, a)) <==> stage == RenderStage::ListDumps,
        fits(stage, RenderEvent::Offset(o)) <==> stage == RenderStage::ProbeSound,
        !fits(RenderStage::Over, RenderEvent::Done) && !fits(RenderStage::Over, RenderEvent::Failed),
{
}

/// Minutes are rounded up: they last at least as long, and one less would not.
pub proof fn minutes_are_rounded_up(secs: nat)
    ensures
        60 * minutes_up(secs) >= secs,
        secs > 0 ==> 60 * (minutes_up(secs) - 1) < secs,
        minutes_up(0) == 0,
{
}

/// Dolphin is let run until its time is up, and stopped from then on; once it has
/// ended nothing is done about it, however long it took.
pub proof fn dolphin_is_stopped_in_time(elapsed: u64, later: u64, kill_after: u64)
    requires
        elapsed <= later,
    ensures
        dolphin_step(true, elapsed, kill_after) == DolphinStep::Done,
        dolphin_step(false, elapsed, kill_after) == DolphinStep::Kill <==> kill_after <= elapsed,
        dolphin_step(false, elapsed, kill_after) == DolphinStep::Kill ==> dolphin_step(
            false,
            later,
            kill_after,
        ) == DolphinStep::Kill,
        dolphin_step(false, elapsed, kill_after) != DolphinStep::Done,
        dolphin_step(false, elapsed, kill_after) matches DolphinStep::Sleep(n) ==> n > 0,
{
}

} // verus!
