use vstd::prelude::*;

verus! {

/// Path of the sound played when the player hits a wall.
pub const WALL_SOUND: &'static str = "sounds/wall.ogg";

/// Path of the sound played when the player jumps.
pub const JUMP_SOUND: &'static str = "sounds/jump.ogg";

/// Path of the gong sound.
pub const GONG_SOUND: &'static str = "sounds/gong.ogg";

/// Why the sounds could not be loaded.
#[derive(Debug, Clone, PartialEq, Eq)]
pub enum AudioError {
    /// Reading `file` failed with `message`.
    Io { file: String, message: String },
    /// Decoding a sound failed with `message`; `file` is the sound file that
    /// was read last when the error is reported.
    Decoder { file: String, message: String },
    /// No audio output device is available.
    NoEndpoint,
}

/// The text shown for an audio error.
pub open spec fn audio_error_text(e: AudioError) -> Seq<char> {
    match e {
        AudioError::Io { file, message } => "file "@ + file@ + ": io error: "@ + message@,
        AudioError::Decoder { file, message } => "file "@ + file@ + ": decode error: "@ + message@,
        AudioError::NoEndpoint => "no audio device available"@,
    }
}

impl AudioError {
    /// A decoding error. Decoding starts once all three sound files have
    /// been read, so the file such an error names is the gong sound, the
    /// last one read.
    pub fn decoding(message: String) -> (e: AudioError)
        ensures
            e == (AudioError::Decoder { file: e->Decoder_file, message }),
            e->Decoder_file@ == GONG_SOUND@,
    {
        AudioError::Decoder { file: String::from_str(GONG_SOUND), message }
    }

    /// The text shown for this error.
    pub fn message(&self) -> (s: String)
        ensures
            s@ == audio_error_text(*self),
    {
        match self {
            AudioError::Io { file, message } => {
                String::from_str("file ").concat(file.as_str()).concat(": io error: ").concat(
                    message.as_str(),
                )
            },
            AudioError::Decoder { file, message } => {
                String::from_str("file ").concat(file.as_str()).concat(": decode error: ").concat(
                    message.as_str(),
                )
            },
            AudioError::NoEndpoint => String::from_str("no audio device available"),
        }
    }
}

/// `read` gives the contents of the file at `path`.
pub open spec fn read_gives<F: Fn(&str) -> Result<Vec<u8>, String>>(
    read: F,
    path: &str,
    out: Result<Vec<u8>, String>,
) -> bool {
    read.ensures((path,), out)
}

/// `read` can read the file at `path`.
pub open spec fn readable<F: Fn(&str) -> Result<Vec<u8>, String>>(read: F, path: &str) -> bool {
    exists|b: Vec<u8>| #[trigger] read_gives(read, path, Ok(b))
}

/// Reads the three sound files with `read`, in the order wall, jump, gong,
/// and stops at the first file that cannot be read; the error names that
/// file and carries what `read` reported.
pub fn read_snd_files<F: Fn(&str) -> Result<Vec<u8>, String>>(read: F) -> (r: Result<
    (Vec<u8>, Vec<u8>, Vec<u8>),
    AudioError,
>)
    requires
        read.requires((WALL_SOUND,)),
        read.requires((JUMP_SOUND,)),
        read.requires((GONG_SOUND,)),
    ensures
        match r {
            Ok((wall, jump, gong)) => {
                &&& read_gives(read, WALL_SOUND, Ok(wall))
                &&& read_gives(read, JUMP_SOUND, Ok(jump))
                &&& read_gives(read, GONG_SOUND, Ok(gong))
            },
            Err(AudioError::Io { file, message }) => {
                ||| file@ == WALL_SOUND@ && read_gives(read, WALL_SOUND, Err(message))
                ||| file@ == JUMP_SOUND@ && readable(read, WALL_SOUND) && read_gives(
                    read,
                    JUMP_SOUND,
                    Err(message),
                )
                ||| file@ == GONG_SOUND@ && readable(read, WALL_SOUND) && readable(read, JUMP_SOUND)
                    && read_gives(read, GONG_SOUND, Err(message))
            },
            Err(_) => false,
        },
{
    let wall = match read(WALL_SOUND) {
        Ok(b) => b,
        Err(m) => return Err(AudioError::Io { file: String::from_str(WALL_SOUND), message: m }),
    };
    assert(read_gives(read, WALL_SOUND, Ok(wall)));
    let jump = match read(JUMP_SOUND) {
        Ok(b) => b,
        Err(m) => return Err(AudioError::Io { file: String::from_str(JUMP_SOUND), message: m }),
    };
    assert(read_gives(read, JUMP_SOUND, Ok(jump)));
    let gong = match read(GONG_SOUND) {
        Ok(b) => b,
        Err(m) => return Err(AudioError::Io { file: String::from_str(GONG_SOUND), message: m }),
    };
    Ok((wall, jump, gong))
}

} // verus!
