use keysound::bank::{
    asset_path, audio_file, directory_path, state_dir, theme_dir, AppState, AssetRead, LoadError,
    ASSETS, AUDIO_FILES, CHERRYMXBROWN, LOAD_REQUESTS,
};
use keysound::sound::{KeyPressType, KeyboardButtonSound, SoundType, Theme};

const STATES: [KeyPressType; 2] = [KeyPressType::Press, KeyPressType::Release];
const SOUNDS: [SoundType; 4] =
    [SoundType::Backspace, SoundType::Enter, SoundType::Generic, SoundType::Space];

/// The bytes that stand for the file of request `k` in these tests.
fn bytes_of(k: usize) -> Vec<u8> {
    vec![k as u8, 0xAA, (k * 3) as u8]
}

/// Ten reads in which every file is present.
fn all_present() -> Vec<AssetRead> {
    (0..LOAD_REQUESTS).map(|k| AssetRead::Contents(bytes_of(k))).collect()
}

#[test]
fn theme_defaults_to_cherry_mx_brown() {
    assert_eq!(Theme::default(), Theme::CherryMXBrown);
}

#[test]
fn clip_keeps_its_category_and_bytes() {
    let clip = KeyboardButtonSound::new(SoundType::Enter, vec![1, 2, 3]);
    assert_eq!(clip.sound_type, SoundType::Enter);
    assert_eq!(clip.data, vec![1, 2, 3]);
    let empty = KeyboardButtonSound::new(SoundType::Generic, Vec::new());
    assert_eq!(empty.sound_type, SoundType::Generic);
    assert!(empty.data.is_empty());
}

#[test]
fn new_bank_holds_nothing() {
    let app = AppState::new(Theme::CherryMXBrown);
    assert_eq!(app.theme(), Theme::CherryMXBrown);
    for state in STATES {
        for sound in SOUNDS {
            assert_eq!(app.get_audio_data(&(state, sound)), None);
        }
    }
}

#[test]
fn configured_files_are_the_five_of_the_theme() {
    assert_eq!(AUDIO_FILES, 5);
    assert_eq!(LOAD_REQUESTS, 10);
    assert_eq!(audio_file(0), Some(("BACKSPACE.mp3", SoundType::Backspace)));
    assert_eq!(audio_file(1), Some(("ENTER.mp3", SoundType::Enter)));
    assert_eq!(audio_file(2), Some(("GENERIC_R0.mp3", SoundType::Generic)));
    assert_eq!(audio_file(3), Some(("GENERIC_R1.mp3", SoundType::Generic)));
    assert_eq!(audio_file(4), Some(("SPACE.mp3", SoundType::Space)));
    assert_eq!(audio_file(5), None);
    assert_eq!(audio_file(usize::MAX), None);
}

#[test]
fn paths_follow_the_asset_layout() {
    assert_eq!(ASSETS, "assets");
    assert_eq!(CHERRYMXBROWN, "cherrymxbrown");
    assert_eq!(theme_dir(Theme::CherryMXBrown), "cherrymxbrown");
    assert_eq!(state_dir(KeyPressType::Press), "press");
    assert_eq!(state_dir(KeyPressType::Release), "release");
    assert_eq!(
        directory_path(Theme::CherryMXBrown, KeyPressType::Press),
        "assets/cherrymxbrown/press"
    );
    assert_eq!(
        directory_path(Theme::CherryMXBrown, KeyPressType::Release),
        "assets/cherrymxbrown/release"
    );
    assert_eq!(
        asset_path(Theme::CherryMXBrown, KeyPressType::Press, "BACKSPACE.mp3"),
        "assets/cherrymxbrown/press/BACKSPACE.mp3"
    );
    assert_eq!(
        asset_path(Theme::CherryMXBrown, KeyPressType::Release, "SPACE.mp3"),
        "assets/cherrymxbrown/release/SPACE.mp3"
    );
    assert_eq!(
        asset_path(Theme::CherryMXBrown, KeyPressType::Release, ""),
        "assets/cherrymxbrown/release/"
    );
}

#[test]
fn load_requests_ask_for_each_file_released_then_pressed() {
    let app = AppState::new(Theme::CherryMXBrown);
    let requests = app.load_requests();
    assert_eq!(requests.len(), 10);
    let expected = [
        (KeyPressType::Release, SoundType::Backspace, "release", "BACKSPACE.mp3"),
        (KeyPressType::Press, SoundType::Backspace, "press", "BACKSPACE.mp3"),
        (KeyPressType::Release, SoundType::Enter, "release", "ENTER.mp3"),
        (KeyPressType::Press, SoundType::Enter, "press", "ENTER.mp3"),
        (KeyPressType::Release, SoundType::Generic, "release", "GENERIC_R0.mp3"),
        (KeyPressType::Press, SoundType::Generic, "press", "GENERIC_R0.mp3"),
        (KeyPressType::Release, SoundType::Generic, "release", "GENERIC_R1.mp3"),
        (KeyPressType::Press, SoundType::Generic, "press", "GENERIC_R1.mp3"),
        (KeyPressType::Release, SoundType::Space, "release", "SPACE.mp3"),
        (KeyPressType::Press, SoundType::Space, "press", "SPACE.mp3"),
    ];
    for (request, (state, sound, dir, file)) in requests.iter().zip(expected) {
        assert_eq!(request.key_press, state);
        assert_eq!(request.sound_type, sound);
        assert_eq!(request.directory, format!("assets/cherrymxbrown/{}", dir));
        assert_eq!(request.path, format!("assets/cherrymxbrown/{}/{}", dir, file));
    }
}

#[test]
fn one_read_file_becomes_a_clip_of_its_state() {
    let mut app = AppState::new(Theme::CherryMXBrown);
    let result = app.load_audio_on_memory(
        &("SPACE.mp3", SoundType::Space),
        KeyPressType::Press,
        AssetRead::Contents(vec![9, 8, 7]),
    );
    assert_eq!(result, Ok(()));
    assert_eq!(app.get_audio_data(&(KeyPressType::Press, SoundType::Space)), Some(vec![9, 8, 7]));
    assert_eq!(app.get_audio_data(&(KeyPressType::Release, SoundType::Space)), None);
    assert_eq!(app.get_audio_data(&(KeyPressType::Press, SoundType::Enter)), None);
}

#[test]
fn missing_file_is_a_gap_and_no_error() {
    let mut app = AppState::new(Theme::CherryMXBrown);
    let result = app.load_audio_on_memory(
        &("ENTER.mp3", SoundType::Enter),
        KeyPressType::Release,
        AssetRead::Missing,
    );
    assert_eq!(result, Ok(()));
    assert_eq!(app.get_audio_data(&(KeyPressType::Release, SoundType::Enter)), None);
}

#[test]
fn unreadable_file_fails_with_its_path() {
    let mut app = AppState::new(Theme::CherryMXBrown);
    let result = app.load_audio_on_memory(
        &("ENTER.mp3", SoundType::Enter),
        KeyPressType::Press,
        AssetRead::Unreadable,
    );
    assert_eq!(
        result,
        Err(LoadError::UnreadableAsset {
            path: String::from("assets/cherrymxbrown/press/ENTER.mp3")
        })
    );
    assert_eq!(app.get_audio_data(&(KeyPressType::Press, SoundType::Enter)), None);
}

#[test]
fn absent_directory_fails_with_its_path() {
    let mut app = AppState::new(Theme::CherryMXBrown);
    let result = app.load_audio_on_memory(
        &("BACKSPACE.mp3", SoundType::Backspace),
        KeyPressType::Release,
        AssetRead::NoDirectory,
    );
    assert_eq!(
        result,
        Err(LoadError::MissingDirectory { path: String::from("assets/cherrymxbrown/release") })
    );
}

#[test]
fn empty_file_is_still_a_clip() {
    let mut app = AppState::new(Theme::CherryMXBrown);
    let result = app.load_audio_on_memory(
        &("SPACE.mp3", SoundType::Space),
        KeyPressType::Press,
        AssetRead::Contents(Vec::new()),
    );
    assert_eq!(result, Ok(()));
    assert_eq!(app.get_audio_data(&(KeyPressType::Press, SoundType::Space)), Some(Vec::new()));
}

#[test]
fn lookup_returns_the_bytes_of_every_present_file() {
    let mut app = AppState::new(Theme::CherryMXBrown);
    assert_eq!(app.load_audio_samples(all_present()), Ok(()));
    // Request k asks for file k / 2, for the release where k is even.
    assert_eq!(app.get_audio_data(&(KeyPressType::Release, SoundType::Backspace)), Some(bytes_of(0)));
    assert_eq!(app.get_audio_data(&(KeyPressType::Press, SoundType::Backspace)), Some(bytes_of(1)));
    assert_eq!(app.get_audio_data(&(KeyPressType::Release, SoundType::Enter)), Some(bytes_of(2)));
    assert_eq!(app.get_audio_data(&(KeyPressType::Press, SoundType::Enter)), Some(bytes_of(3)));
    assert_eq!(app.get_audio_data(&(KeyPressType::Release, SoundType::Generic)), Some(bytes_of(4)));
    assert_eq!(app.get_audio_data(&(KeyPressType::Press, SoundType::Generic)), Some(bytes_of(5)));
    assert_eq!(app.get_audio_data(&(KeyPressType::Release, SoundType::Space)), Some(bytes_of(8)));
    assert_eq!(app.get_audio_data(&(KeyPressType::Press, SoundType::Space)), Some(bytes_of(9)));
}

#[test]
fn lookup_returns_nothing_for_every_absent_file() {
    let mut app = AppState::new(Theme::CherryMXBrown);
    let reads: Vec<AssetRead> = (0..LOAD_REQUESTS).map(|_| AssetRead::Missing).collect();
    assert_eq!(app.load_audio_samples(reads), Ok(()));
    for state in STATES {
        for sound in SOUNDS {
            assert_eq!(app.get_audio_data(&(state, sound)), None);
        }
    }
}

#[test]
fn partial_theme_loads_what_is_there() {
    let mut app = AppState::new(Theme::CherryMXBrown);
    let mut reads: Vec<AssetRead> = (0..LOAD_REQUESTS).map(|_| AssetRead::Missing).collect();
    reads[3] = AssetRead::Contents(vec![3, 3]);
    reads[8] = AssetRead::Contents(vec![8]);
    assert_eq!(app.load_audio_samples(reads), Ok(()));
    assert_eq!(app.get_audio_data(&(KeyPressType::Press, SoundType::Enter)), Some(vec![3, 3]));
    assert_eq!(app.get_audio_data(&(KeyPressType::Release, SoundType::Space)), Some(vec![8]));
    assert_eq!(app.get_audio_data(&(KeyPressType::Release, SoundType::Enter)), None);
    assert_eq!(app.get_audio_data(&(KeyPressType::Press, SoundType::Space)), None);
    assert_eq!(app.get_audio_data(&(KeyPressType::Press, SoundType::Generic)), None);
    assert_eq!(app.get_audio_data(&(KeyPressType::Press, SoundType::Backspace)), None);
}

#[test]
fn second_generic_file_serves_where_the_first_is_absent() {
    let mut app = AppState::new(Theme::CherryMXBrown);
    let mut reads = all_present();
    reads[5] = AssetRead::Missing;
    assert_eq!(app.load_audio_samples(reads), Ok(()));
    assert_eq!(app.get_audio_data(&(KeyPressType::Press, SoundType::Generic)), Some(bytes_of(7)));
    assert_eq!(app.get_audio_data(&(KeyPressType::Release, SoundType::Generic)), Some(bytes_of(4)));
}

#[test]
fn load_ends_at_the_first_unreadable_file() {
    let mut app = AppState::new(Theme::CherryMXBrown);
    let mut reads = all_present();
    reads[4] = AssetRead::Unreadable;
    reads[6] = AssetRead::NoDirectory;
    assert_eq!(
        app.load_audio_samples(reads),
        Err(LoadError::UnreadableAsset {
            path: String::from("assets/cherrymxbrown/release/GENERIC_R0.mp3")
        })
    );
    // What came before the failure stays, what comes after was not taken in.
    assert_eq!(app.get_audio_data(&(KeyPressType::Release, SoundType::Backspace)), Some(bytes_of(0)));
    assert_eq!(app.get_audio_data(&(KeyPressType::Press, SoundType::Enter)), Some(bytes_of(3)));
    assert_eq!(app.get_audio_data(&(KeyPressType::Press, SoundType::Generic)), None);
    assert_eq!(app.get_audio_data(&(KeyPressType::Press, SoundType::Space)), None);
}

#[test]
fn load_fails_at_once_without_the_release_directory() {
    let mut app = AppState::new(Theme::CherryMXBrown);
    let mut reads = all_present();
    reads[0] = AssetRead::NoDirectory;
    assert_eq!(
        app.load_audio_samples(reads),
        Err(LoadError::MissingDirectory { path: String::from("assets/cherrymxbrown/release") })
    );
    for state in STATES {
        for sound in SOUNDS {
            assert_eq!(app.get_audio_data(&(state, sound)), None);
        }
    }
}

#[test]
fn load_fails_without_the_press_directory() {
    let mut app = AppState::new(Theme::CherryMXBrown);
    let mut reads = all_present();
    for k in [1, 3, 5, 7, 9] {
        reads[k] = AssetRead::NoDirectory;
    }
    assert_eq!(
        app.load_audio_samples(reads),
        Err(LoadError::MissingDirectory { path: String::from("assets/cherrymxbrown/press") })
    );
    assert_eq!(app.get_audio_data(&(KeyPressType::Release, SoundType::Backspace)), Some(bytes_of(0)));
    assert_eq!(app.get_audio_data(&(KeyPressType::Release, SoundType::Enter)), None);
}

#[test]
fn load_refuses_a_wrong_number_of_reads() {
    let mut app = AppState::new(Theme::CherryMXBrown);
    let short = vec![AssetRead::Contents(vec![1]), AssetRead::Missing, AssetRead::Missing];
    assert_eq!(
        app.load_audio_samples(short),
        Err(LoadError::WrongReadCount { expected: 10, given: 3 })
    );
    assert_eq!(app.get_audio_data(&(KeyPressType::Release, SoundType::Backspace)), None);
    let mut long = all_present();
    long.push(AssetRead::Missing);
    assert_eq!(
        app.load_audio_samples(long),
        Err(LoadError::WrongReadCount { expected: 10, given: 11 })
    );
    assert_eq!(
        app.load_audio_samples(Vec::new()),
        Err(LoadError::WrongReadCount { expected: 10, given: 0 })
    );
    for state in STATES {
        for sound in SOUNDS {
            assert_eq!(app.get_audio_data(&(state, sound)), None);
        }
    }
}

#[test]
fn lookup_hands_out_a_copy() {
    let mut app = AppState::new(Theme::CherryMXBrown);
    assert_eq!(app.load_audio_samples(all_present()), Ok(()));
    let mut first = app.get_audio_data(&(KeyPressType::Press, SoundType::Enter)).unwrap();
    first.push(0xFF);
    first[0] = 0;
    assert_eq!(app.get_audio_data(&(KeyPressType::Press, SoundType::Enter)), Some(bytes_of(3)));
}

#[test]
fn earlier_clip_of_a_category_stays_current() {
    let mut app = AppState::new(Theme::CherryMXBrown);
    let audio = ("ENTER.mp3", SoundType::Enter);
    assert_eq!(
        app.load_audio_on_memory(&audio, KeyPressType::Press, AssetRead::Contents(vec![1])),
        Ok(())
    );
    assert_eq!(
        app.load_audio_on_memory(&audio, KeyPressType::Press, AssetRead::Contents(vec![2])),
        Ok(())
    );
    assert_eq!(app.get_audio_data(&(KeyPressType::Press, SoundType::Enter)), Some(vec![1]));
}

#[test]
fn load_errors_tell_what_went_wrong() {
    let directory = LoadError::MissingDirectory { path: String::from("assets/cherrymxbrown/press") };
    assert_eq!(directory.message(), "missing sound directory: assets/cherrymxbrown/press");
    let file =
        LoadError::UnreadableAsset { path: String::from("assets/cherrymxbrown/release/ENTER.mp3") };
    assert_eq!(file.message(), "unreadable sound file: assets/cherrymxbrown/release/ENTER.mp3");
    let count = LoadError::WrongReadCount { expected: 10, given: 2 };
    assert_eq!(count.message(), "wrong number of reads for the load");
}
