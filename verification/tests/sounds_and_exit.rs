use std::cell::RefCell;

use airjump::exit::OkOrExit;
use airjump::audio::{read_snd_files, AudioError, GONG_SOUND, JUMP_SOUND, WALL_SOUND};

#[test]
fn reads_the_three_sounds_in_order() {
    let log = RefCell::new(Vec::new());
    let r = read_snd_files(|path: &str| {
        log.borrow_mut().push(path.to_string());
        Ok(path.as_bytes().to_vec())
    });
    assert_eq!(
        r,
        Ok((b"sounds/wall.ogg".to_vec(), b"sounds/jump.ogg".to_vec(), b"sounds/gong.ogg".to_vec()))
    );
    assert_eq!(*log.borrow(), vec![WALL_SOUND, JUMP_SOUND, GONG_SOUND]);
}

#[test]
fn stops_at_the_first_unreadable_sound() {
    let log = RefCell::new(Vec::new());
    let r = read_snd_files(|path: &str| {
        log.borrow_mut().push(path.to_string());
        if path == JUMP_SOUND {
            Err("permission denied".to_string())
        } else {
            Ok(vec![1])
        }
    });
    assert_eq!(
        r,
        Err(AudioError::Io { file: JUMP_SOUND.to_string(), message: "permission denied".to_string() })
    );
    assert_eq!(*log.borrow(), vec![WALL_SOUND, JUMP_SOUND]);
}

#[test]
fn wall_failure_names_wall() {
    let r = read_snd_files(|_: &str| Err("missing".to_string()));
    assert_eq!(r, Err(AudioError::Io { file: WALL_SOUND.to_string(), message: "missing".to_string() }));
}

#[test]
fn gong_failure_names_gong() {
    let r = read_snd_files(|p: &str| if p == GONG_SOUND { Err("x".to_string()) } else { Ok(vec![]) });
    assert_eq!(r, Err(AudioError::Io { file: GONG_SOUND.to_string(), message: "x".to_string() }));
}

#[test]
fn audio_error_messages() {
    let io = AudioError::Io { file: WALL_SOUND.to_string(), message: "gone".to_string() };
    assert_eq!(io.message(), "file sounds/wall.ogg: io error: gone");
    let dec = AudioError::decoding("UnrecognizedFormat".to_string());
    assert_eq!(dec.message(), "file sounds/gong.ogg: decode error: UnrecognizedFormat");
    assert_eq!(AudioError::NoEndpoint.message(), "no audio device available");
}

#[test]
fn ok_or_exit_continues_with_the_value() {
    let r: Result<u32, String> = Ok(7);
    assert_eq!(r.ok_or_exit(), 7);
    let r: Result<Vec<u8>, ()> = Ok(vec![1, 2]);
    assert_eq!(r.ok_or_exit(), vec![1, 2]);
}
