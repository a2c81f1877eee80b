//! The recorder's state machine: which gpu-screen-recorder processes run,
//! what to start, and what to signal. Starting, signalling and waiting for
//! the processes is left to the caller, which reports back their ids.

use vstd::prelude::*;
use crate::settings::AppSettings;
use crate::text::{decimal, decimal_string, push_arg, push_char};

verus! {

/// Whether the replay buffer and a plain recording are running.
#[derive(Clone, Copy, Debug, PartialEq, Eq, Structural)]
pub struct RecordingState {
    pub replay_buffer_active: bool,
    pub recording_active: bool,
}

/// Why the recorder refused a request.
#[derive(Clone, Copy, Debug, PartialEq, Eq, Structural)]
pub enum RecorderError {
    ReplayBufferAlreadyRunning,
    NoReplayBufferRunning,
    AlreadyRecording,
    NotRecording,
}

/// The text shown to the user for each refusal.
pub open spec fn recorder_error_text(e: RecorderError) -> Seq<char> {
    match e {
        RecorderError::ReplayBufferAlreadyRunning => "replay buffer already running"@,
        RecorderError::NoReplayBufferRunning => "no replay buffer running"@,
        RecorderError::AlreadyRecording => "already recording"@,
        RecorderError::NotRecording => "not recording"@,
    }
}

impl RecorderError {
    /// The message of this error.
    pub fn message(&self) -> (r: String)
        ensures
            r@ == recorder_error_text(*self),
    {
        match self {
            RecorderError::ReplayBufferAlreadyRunning => "replay buffer already running".to_string(),
            RecorderError::NoReplayBufferRunning => "no replay buffer running".to_string(),
            RecorderError::AlreadyRecording => "already recording".to_string(),
            RecorderError::NotRecording => "not recording".to_string(),
        }
    }
}

/// The process ids of the replay buffer and of the recording, when running.
pub struct Recorder {
    replay: Option<u32>,
    recording: Option<u32>,
}

impl View for Recorder {
    type V = (Option<u32>, Option<u32>);

    closed spec fn view(&self) -> (Option<u32>, Option<u32>) {
        (self.replay, self.recording)
    }
}

/// The recorder program.
pub open spec fn recorder_program() -> Seq<char> {
    "gpu-screen-recorder"@
}

/// The options every capture starts with: the desktop portal as source, the
/// frame rate, the video codec, the audio codec, and the audio source unless
/// it is empty.
pub open spec fn base_args_spec(s: AppSettings) -> Seq<Seq<char>> {
    seq![
        recorder_program(),
        "-w"@,
        "portal"@,
        "-f"@,
        decimal(s.fps as nat),
        "-k"@,
        s.codec@,
        "-ac"@,
        s.audio_codec@,
    ] + if s.audio_source@.len() == 0 {
        Seq::<Seq<char>>::empty()
    } else {
        seq!["-a"@, s.audio_source@]
    }
}

/// The replay buffer's command line: the base options, the buffer length in
/// seconds, the container, and the clips folder to save into.
pub open spec fn replay_command_spec(s: AppSettings) -> Seq<Seq<char>> {
    base_args_spec(s) + seq![
        "-r"@,
        decimal(s.buffer_seconds as nat),
        "-c"@,
        s.container@,
        "-o"@,
        s.clips_directory@,
    ]
}

/// Where a recording started at `stamp` is written: `<clips>/<stamp>.<container>`.
pub open spec fn recording_output_spec(s: AppSettings, stamp: Seq<char>) -> Seq<char> {
    s.clips_directory@ + seq!['/'] + stamp + seq!['.'] + s.container@
}

/// A recording's command line: the base options and its output file.
pub open spec fn recording_command_spec(s: AppSettings, stamp: Seq<char>) -> Seq<Seq<char>> {
    base_args_spec(s) + seq!["-o"@, recording_output_spec(s, stamp)]
}

/// The recorder after the replay buffer started as process `pid`.
pub open spec fn with_replay(m: (Option<u32>, Option<u32>), pid: u32) -> (Option<u32>, Option<u32>) {
    (Some(pid), m.1)
}

/// The recorder after the replay buffer stopped.
pub open spec fn without_replay(m: (Option<u32>, Option<u32>)) -> (Option<u32>, Option<u32>) {
    (None, m.1)
}

/// The recorder after a recording started as process `pid`.
pub open spec fn with_recording(m: (Option<u32>, Option<u32>), pid: u32) -> (
    Option<u32>,
    Option<u32>,
) {
    (m.0, Some(pid))
}

/// The recorder after the recording stopped.
pub open spec fn without_recording(m: (Option<u32>, Option<u32>)) -> (Option<u32>, Option<u32>) {
    (m.0, None)
}

/// The command line that starts a capture with the settings' base options.
fn base_command(s: &AppSettings) -> (r: Vec<String>)
    ensures
        r.deep_view() == base_args_spec(*s),
{
    let mut r: Vec<String> = Vec::new();
    push_arg(&mut r, "gpu-screen-recorder");
    push_arg(&mut r, "-w");
    push_arg(&mut r, "portal");
    push_arg(&mut r, "-f");
    push_arg(&mut r, decimal_string(s.fps as u64).as_str());
    push_arg(&mut r, "-k");
    push_arg(&mut r, s.codec.as_str());
    push_arg(&mut r, "-ac");
    push_arg(&mut r, s.audio_codec.as_str());
    if !s.audio_source.as_str().is_empty() {
        push_arg(&mut r, "-a");
        push_arg(&mut r, s.audio_source.as_str());
    }
    assert(r.deep_view() =~= base_args_spec(*s));
    r
}

/// The file a recording started at `stamp` is written to.
pub fn recording_output(s: &AppSettings, stamp: &str) -> (r: String)
    ensures
        r@ == recording_output_spec(*s, stamp@),
{
    let mut r = s.clips_directory.clone();
    push_char(&mut r, '/');
    r.append(stamp);
    push_char(&mut r, '.');
    r.append(s.container.as_str());
    r
}

impl Recorder {
    /// A recorder with nothing running.
    pub fn new() -> (r: Self)
        ensures
            r@ == (None::<u32>, None::<u32>),
    {
        Recorder { replay: None, recording: None }
    }

    /// What is running.
    pub fn get_state(&self) -> (st: RecordingState)
        ensures
            st.replay_buffer_active == self@.0 is Some,
            st.recording_active == self@.1 is Some,
    {
        RecordingState {
            replay_buffer_active: self.replay.is_some(),
            recording_active: self.recording.is_some(),
        }
    }

    /// The command line to start the replay buffer with, or the refusal when
    /// it already runs.
    pub fn start_replay_buffer(&self, s: &AppSettings) -> (r: Result<Vec<String>, RecorderError>)
        ensures
            self@.0 is Some ==> r == Err::<Vec<String>, RecorderError>(
                RecorderError::ReplayBufferAlreadyRunning,
            ),
            self@.0 is None ==> r is Ok && r->Ok_0.deep_view() == replay_command_spec(*s),
    {
        if self.replay.is_some() {
            return Err(RecorderError::ReplayBufferAlreadyRunning);
        }
        let mut cmd = base_command(s);
        push_arg(&mut cmd, "-r");
        push_arg(&mut cmd, decimal_string(s.buffer_seconds as u64).as_str());
        push_arg(&mut cmd, "-c");
        push_arg(&mut cmd, s.container.as_str());
        push_arg(&mut cmd, "-o");
        push_arg(&mut cmd, s.clips_directory.as_str());
        assert(cmd.deep_view() =~= replay_command_spec(*s));
        Ok(cmd)
    }

    /// Records that the replay buffer now runs as process `pid`.
    pub fn replay_buffer_started(&mut self, pid: u32)
        requires
            old(self)@.0 is None,
        ensures
            final(self)@ == with_replay(old(self)@, pid),
    {
        self.replay = Some(pid);
    }

    /// Forgets the replay buffer and gives the process to interrupt and wait
    /// for, or the refusal when none runs.
    pub fn stop_replay_buffer(&mut self) -> (r: Result<u32, RecorderError>)
        ensures
            match old(self)@.0 {
                Some(pid) => r == Ok::<u32, RecorderError>(pid) && final(self)@ == without_replay(
                    old(self)@,
                ),
                None => r == Err::<u32, RecorderError>(RecorderError::NoReplayBufferRunning)
                    && final(self)@ == old(self)@,
            },
    {
        match self.replay.take() {
            Some(pid) => Ok(pid),
            None => Err(RecorderError::NoReplayBufferRunning),
        }
    }

    /// The process to signal so that it saves the buffer, or the refusal
    /// when none runs.
    pub fn save_replay(&self) -> (r: Result<u32, RecorderError>)
        ensures
            match self@.0 {
                Some(pid) => r == Ok::<u32, RecorderError>(pid),
                None => r == Err::<u32, RecorderError>(RecorderError::NoReplayBufferRunning),
            },
    {
        match self.replay {
            Some(pid) => Ok(pid),
            None => Err(RecorderError::NoReplayBufferRunning),
        }
    }

    /// The command line to record into `<clips>/<stamp>.<container>` with,
    /// or the refusal when a recording already runs.
    pub fn start_recording(&self, s: &AppSettings, stamp: &str) -> (r: Result<
        Vec<String>,
        RecorderError,
    >)
        ensures
            self@.1 is Some ==> r == Err::<Vec<String>, RecorderError>(
                RecorderError::AlreadyRecording,
            ),
            self@.1 is None ==> r is Ok && r->Ok_0.deep_view() == recording_command_spec(
                *s,
                stamp@,
            ),
    {
        if self.recording.is_some() {
            return Err(RecorderError::AlreadyRecording);
        }
        let output = recording_output(s, stamp);
        let mut cmd = base_command(s);
        push_arg(&mut cmd, "-o");
        push_arg(&mut cmd, output.as_str());
        assert(cmd.deep_view() =~= recording_command_spec(*s, stamp@));
        Ok(cmd)
    }

    /// Records that a recording now runs as process `pid`.
    pub fn recording_started(&mut self, pid: u32)
        requires
            old(self)@.1 is None,
        ensures
            final(self)@ == with_recording(old(self)@, pid),
    {
        self.recording = Some(pid);
    }

    /// Forgets the recording and gives the process to interrupt and wait
    /// for, or the refusal when none runs.
    pub fn stop_recording(&mut self) -> (r: Result<u32, RecorderError>)
        ensures
            match old(self)@.1 {
                Some(pid) => r == Ok::<u32, RecorderError>(pid) && final(self)@
                    == without_recording(old(self)@),
                None => r == Err::<u32, RecorderError>(RecorderError::NotRecording) && final(self)@
                    == old(self)@,
            },
    {
        match self.recording.take() {
            Some(pid) => Ok(pid),
            None => Err(RecorderError::NotRecording),
        }
    }

    /// The processes to interrupt and wait for when the recorder goes away.
    pub fn running_processes(&self) -> (r: Vec<u32>)
        ensures
            r@ == (match self@.0 {
                Some(p) => seq![p],
                None => Seq::<u32>::empty(),
            }) + (match self@.1 {
                Some(p) => seq![p],
                None => Seq::<u32>::empty(),
            }),
    {
        let mut r: Vec<u32> = Vec::new();
        if let Some(p) = self.replay {
            r.push(p);
        }
        if let Some(p) = self.recording {
            r.push(p);
        }
        assert(r@ =~= (match self@.0 {
            Some(p) => seq![p],
            None => Seq::<u32>::empty(),
        }) + (match self@.1 {
            Some(p) => seq![p],
            None => Seq::<u32>::empty(),
        }));
        r
    }
}

/// Starting the replay buffer and stopping it again leaves the recorder as
/// it was, and the recording is never touched by either.
pub proof fn lemma_replay_start_stop(m: (Option<u32>, Option<u32>), pid: u32)
    requires
        m.0 is None,
    ensures
        without_replay(with_replay(m, pid)) == m,
        with_replay(m, pid).1 == m.1,
        without_replay(m).1 == m.1,
{
}

/// Starting a recording and stopping it again leaves the recorder as it
/// was, and the replay buffer is never touched by either.
pub proof fn lemma_recording_start_stop(m: (Option<u32>, Option<u32>), pid: u32)
    requires
        m.1 is None,
    ensures
        without_recording(with_recording(m, pid)) == m,
        with_recording(m, pid).0 == m.0,
        without_recording(m).0 == m.0,
{
}

/// A recording runs with the same options as the replay buffer: its command
/// is the buffer's command without the buffer's own options (the buffer
/// length, the container and the folder to save into), then `-o` and the
/// recording's file. Both start `gpu-screen-recorder -w portal -f <fps> -k
/// <codec> -ac <audio codec>`, followed by `-a <source>` when an audio
/// source is set.
pub proof fn lemma_recording_shares_buffer_options(s: AppSettings, stamp: Seq<char>)
    ensures
        recording_command_spec(s, stamp) == replay_command_spec(s).take(
            replay_command_spec(s).len() - 6,
        ) + seq!["-o"@, recording_output_spec(s, stamp)],
        recording_command_spec(s, stamp).take(9) == seq![
            "gpu-screen-recorder"@,
            "-w"@,
            "portal"@,
            "-f"@,
            decimal(s.fps as nat),
            "-k"@,
            s.codec@,
            "-ac"@,
            s.audio_codec@,
        ],
        s.audio_source@.len() > 0 ==> recording_command_spec(s, stamp).len() == 13
            && recording_command_spec(s, stamp)[9] == "-a"@ && recording_command_spec(s, stamp)[10]
            == s.audio_source@,
        s.audio_source@.len() == 0 ==> recording_command_spec(s, stamp).len() == 11,
        s.audio_source@.len() > 0 ==> replay_command_spec(s)[9] == "-a"@ && replay_command_spec(
            s,
        )[10] == s.audio_source@,
{
    let r = recording_command_spec(s, stamp);
    let b = replay_command_spec(s);
    assert(b.take(b.len() - 6) =~= base_args_spec(s));
    assert(r.take(9) =~= base_args_spec(s).take(9));
}

} // verus!
