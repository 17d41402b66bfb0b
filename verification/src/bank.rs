//! The sound bank: the clips of one theme, kept apart by key state and found
//! by a linear search on the category.

use vstd::prelude::*;
use vstd::string::StringExecFns;
use crate::sound::{KeyPressType, KeyboardButtonSound, SoundClip, SoundType, Theme, clip_views, first_clip};

verus! {

/// The mathematical content of a bank: its theme and, for each key state,
/// the clips in the order in which they were loaded.
pub struct SoundBank {
    pub theme: Theme,
    pub press: Seq<SoundClip>,
    pub release: Seq<SoundClip>,
}

impl SoundBank {
    /// The bank of a theme before anything is loaded.
    pub open spec fn empty(theme: Theme) -> SoundBank {
        SoundBank { theme, press: Seq::empty(), release: Seq::empty() }
    }

    /// The clips kept for one key state.
    pub open spec fn clips(self, key_press: KeyPressType) -> Seq<SoundClip> {
        match key_press {
            KeyPressType::Press => self.press,
            KeyPressType::Release => self.release,
        }
    }

    /// The encoded bytes that a key state and a category select: those of
    /// the first clip of that category among the clips of that state.
    pub open spec fn lookup(self, key_press: KeyPressType, sound_type: SoundType) -> Option<Seq<u8>> {
        first_clip(self.clips(key_press), sound_type)
    }

    /// The bank after one read: the bytes of a file that was read become a
    /// clip of the category at the end of the clips of the key state, any
    /// other read leaves the bank as it is.
    pub open spec fn with_read(self, key_press: KeyPressType, sound_type: SoundType, read: AssetRead) -> SoundBank {
        match read {
            AssetRead::Contents(bytes) => self.with_clip(key_press, SoundClip { sound_type, data: bytes@ }),
            _ => self,
        }
    }

    /// The bank after the first `n` requests of a load were answered by the
    /// first `n` of `reads`.
    pub open spec fn with_reads(self, reads: Seq<AssetRead>, n: nat) -> SoundBank
        decreases n,
    {
        if n == 0 {
            self
        } else {
            let k = n - 1;
            self.with_reads(reads, k as nat).with_read(
                request_key_press(k),
                spec_audio_file(request_file(k)).1,
                reads[k],
            )
        }
    }

    /// The bank with one more clip at the end of the clips of a key state.
    pub open spec fn with_clip(self, key_press: KeyPressType, clip: SoundClip) -> SoundBank {
        match key_press {
            KeyPressType::Press => SoundBank { press: self.press.push(clip), ..self },
            KeyPressType::Release => SoundBank { release: self.release.push(clip), ..self },
        }
    }
}

/// The directory under which every theme keeps its assets.
pub const ASSETS: &'static str = "assets";

/// The directory of the theme `Theme::CherryMXBrown`.
pub const CHERRYMXBROWN: &'static str = "cherrymxbrown";

/// How many asset files a theme is asked for, for each key state.
pub const AUDIO_FILES: usize = 5;

/// How many reads a full load asks for: every file, for both key states.
pub const LOAD_REQUESTS: usize = 10;

/// The name and the category of each configured asset file, in load order.
pub open spec fn spec_audio_file(file: int) -> (Seq<char>, SoundType) {
    if file == 0 {
        ("BACKSPACE.mp3"@, SoundType::Backspace)
    } else if file == 1 {
        ("ENTER.mp3"@, SoundType::Enter)
    } else if file == 2 {
        ("GENERIC_R0.mp3"@, SoundType::Generic)
    } else if file == 3 {
        ("GENERIC_R1.mp3"@, SoundType::Generic)
    } else {
        ("SPACE.mp3"@, SoundType::Space)
    }
}

/// The directory name of a theme.
pub open spec fn spec_theme_dir(theme: Theme) -> Seq<char> {
    match theme {
        Theme::CherryMXBrown => "cherrymxbrown"@,
    }
}

/// The directory name of a key state.
pub open spec fn spec_state_dir(key_press: KeyPressType) -> Seq<char> {
    match key_press {
        KeyPressType::Press => "press"@,
        KeyPressType::Release => "release"@,
    }
}

/// The directory that holds the assets of a theme for one key state:
/// `assets/<theme>/<state>`.
pub open spec fn spec_directory_path(theme: Theme, key_press: KeyPressType) -> Seq<char> {
    "assets"@ + "/"@ + spec_theme_dir(theme) + "/"@ + spec_state_dir(key_press)
}

/// The path of one asset file: `assets/<theme>/<state>/<file name>`.
pub open spec fn spec_asset_path(theme: Theme, key_press: KeyPressType, file_name: Seq<char>) -> Seq<char> {
    spec_directory_path(theme, key_press) + "/"@ + file_name
}

/// The name and the category of a configured asset file, or nothing past the
/// last one.
pub fn audio_file(file: usize) -> (entry: Option<(&'static str, SoundType)>)
    ensures
        entry is Some <==> file < AUDIO_FILES,
        entry matches Some(e) ==> e.0@ == spec_audio_file(file as int).0 && e.1 == spec_audio_file(
            file as int,
        ).1,
{
    if file == 0 {
        Some(("BACKSPACE.mp3", SoundType::Backspace))
    } else if file == 1 {
        Some(("ENTER.mp3", SoundType::Enter))
    } else if file == 2 {
        Some(("GENERIC_R0.mp3", SoundType::Generic))
    } else if file == 3 {
        Some(("GENERIC_R1.mp3", SoundType::Generic))
    } else if file == 4 {
        Some(("SPACE.mp3", SoundType::Space))
    } else {
        None
    }
}

/// The directory name of a theme.
pub fn theme_dir(theme: Theme) -> (dir: &'static str)
    ensures
        dir@ == spec_theme_dir(theme),
{
    match theme {
        Theme::CherryMXBrown => CHERRYMXBROWN,
    }
}

/// The directory name of a key state.
pub fn state_dir(key_press: KeyPressType) -> (dir: &'static str)
    ensures
        dir@ == spec_state_dir(key_press),
{
    match key_press {
        KeyPressType::Press => "press",
        KeyPressType::Release => "release",
    }
}

/// The directory that holds the assets of a theme for one key state.
pub fn directory_path(theme: Theme, key_press: KeyPressType) -> (path: String)
    ensures
        path@ == spec_directory_path(theme, key_press),
{
    let mut path = String::from_str(ASSETS);
    path.append("/");
    path.append(theme_dir(theme));
    path.append("/");
    path.append(state_dir(key_press));
    path
}

/// The path of one asset file of a theme.
pub fn asset_path(theme: Theme, key_press: KeyPressType, file_name: &str) -> (path: String)
    ensures
        path@ == spec_asset_path(theme, key_press, file_name@),
{
    let mut path = directory_path(theme, key_press);
    path.append("/");
    path.append(file_name);
    path
}

/// One request of a load: the file to read and what its bytes are for.
#[derive(Clone, Debug, PartialEq)]
pub struct AssetRequest {
    pub key_press: KeyPressType,
    pub sound_type: SoundType,
    /// The directory that has to exist for the load to go on.
    pub directory: String,
    /// The file to read.
    pub path: String,
}

impl AssetRequest {
    /// Whether this is request `k` of a load of `theme`.
    pub open spec fn is_request(&self, theme: Theme, k: int) -> bool {
        &&& self.key_press == request_key_press(k)
        &&& self.sound_type == spec_audio_file(request_file(k)).1
        &&& self.directory@ == spec_directory_path(theme, request_key_press(k))
        &&& self.path@ == spec_asset_path(
            theme,
            request_key_press(k),
            spec_audio_file(request_file(k)).0,
        )
    }
}

/// What became of the attempt to read one asset file.
#[derive(Clone, Debug, PartialEq)]
pub enum AssetRead {
    /// The directory that should hold the file does not exist.
    NoDirectory,
    /// The directory exists and holds no such file.
    Missing,
    /// The file exists and its bytes could not be read.
    Unreadable,
    /// The file was read; these are its bytes.
    Contents(Vec<u8>),
}

impl AssetRead {
    /// Whether the read ends the load: a directory that is absent and a file
    /// that cannot be read do, a file that is merely absent does not.
    pub open spec fn is_fatal(self) -> bool {
        self is NoDirectory || self is Unreadable
    }
}

/// Why a load was given up. Every variant is fatal at startup.
#[derive(Clone, Debug, PartialEq)]
pub enum LoadError {
    /// The theme has no directory for one of the key states.
    MissingDirectory { path: String },
    /// An asset file exists and cannot be read.
    UnreadableAsset { path: String },
    /// The reads handed in are not one for each request of the load.
    WrongReadCount { expected: usize, given: usize },
}

/// The mathematical content of a `LoadError`.
pub enum LoadFailure {
    MissingDirectory { path: Seq<char> },
    UnreadableAsset { path: Seq<char> },
    WrongReadCount { expected: nat, given: nat },
}

impl View for LoadError {
    type V = LoadFailure;

    open spec fn view(&self) -> LoadFailure {
        match self {
            LoadError::MissingDirectory { path } => LoadFailure::MissingDirectory { path: path@ },
            LoadError::UnreadableAsset { path } => LoadFailure::UnreadableAsset { path: path@ },
            LoadError::WrongReadCount { expected, given } => LoadFailure::WrongReadCount {
                expected: *expected as nat,
                given: *given as nat,
            },
        }
    }
}

/// The text that tells the operator why a load was given up.
pub open spec fn spec_message(failure: LoadFailure) -> Seq<char> {
    match failure {
        LoadFailure::MissingDirectory { path } => "missing sound directory: "@ + path,
        LoadFailure::UnreadableAsset { path } => "unreadable sound file: "@ + path,
        LoadFailure::WrongReadCount { .. } => "wrong number of reads for the load"@,
    }
}

impl LoadError {
    /// The text that tells the operator why the load was given up.
    pub fn message(&self) -> (text: String)
        ensures
            text@ == spec_message(self@),
    {
        match self {
            LoadError::MissingDirectory { path } => {
                let mut text = String::from_str("missing sound directory: ");
                text.append(path.as_str());
                text
            },
            LoadError::UnreadableAsset { path } => {
                let mut text = String::from_str("unreadable sound file: ");
                text.append(path.as_str());
                text
            },
            LoadError::WrongReadCount { .. } => String::from_str("wrong number of reads for the load"),
        }
    }
}

/// The failure that a read of the file `file_name` causes, if it causes one:
/// a fatal read fails with the path that it could not be had from.
pub open spec fn read_failure(
    theme: Theme,
    key_press: KeyPressType,
    file_name: Seq<char>,
    read: AssetRead,
) -> Option<LoadFailure> {
    match read {
        AssetRead::NoDirectory => Some(
            LoadFailure::MissingDirectory { path: spec_directory_path(theme, key_press) },
        ),
        AssetRead::Unreadable => Some(
            LoadFailure::UnreadableAsset { path: spec_asset_path(theme, key_press, file_name) },
        ),
        AssetRead::Missing => None,
        AssetRead::Contents(_) => None,
    }
}

/// The key state that request `k` of a load asks for: each file is asked for
/// twice, first for the release, then for the press.
pub open spec fn request_key_press(k: int) -> KeyPressType {
    if k % 2 == 0 {
        KeyPressType::Release
    } else {
        KeyPressType::Press
    }
}

/// The configured file that request `k` of a load asks for.
pub open spec fn request_file(k: int) -> int {
    k / 2
}

/// The failure that the read answering request `k` causes, if it causes one.
pub open spec fn request_failure(theme: Theme, reads: Seq<AssetRead>, k: int) -> Option<LoadFailure> {
    read_failure(theme, request_key_press(k), spec_audio_file(request_file(k)).0, reads[k])
}

/// The first read from `from` on that is fatal, or `reads.len()` where none
/// is.
pub open spec fn first_fatal(reads: Seq<AssetRead>, from: int) -> int
    decreases reads.len() - from,
{
    if from < 0 || from >= reads.len() {
        reads.len() as int
    } else if reads[from].is_fatal() {
        from
    } else {
        first_fatal(reads, from + 1)
    }
}

/// Whether `stop` is where a load ends: no read before it is fatal, and the
/// read at it is, unless it lies past the last read.
pub open spec fn ends_load(reads: Seq<AssetRead>, stop: int) -> bool {
    &&& 0 <= stop <= reads.len()
    &&& forall|j: int| 0 <= j < stop ==> !(#[trigger] reads[j]).is_fatal()
    &&& stop < reads.len() ==> reads[stop].is_fatal()
}

/// The program's sounds: the clips of the active theme for both key states.
pub struct AppState {
    theme: Theme,
    audio_press: Vec<KeyboardButtonSound>,
    audio_release: Vec<KeyboardButtonSound>,
}

impl View for AppState {
    type V = SoundBank;

    closed spec fn view(&self) -> SoundBank {
        SoundBank {
            theme: self.theme,
            press: clip_views(self.audio_press@),
            release: clip_views(self.audio_release@),
        }
    }
}

impl AppState {
    /// A bank for `theme` that holds no clip yet.
    pub fn new(theme: Theme) -> (app: Self)
        ensures
            app@ == SoundBank::empty(theme),
    {
        let app = Self { theme, audio_press: Vec::new(), audio_release: Vec::new() };
        assert(app@.press =~= Seq::empty());
        assert(app@.release =~= Seq::empty());
        app
    }

    /// The theme whose clips the bank holds.
    pub fn theme(&self) -> (theme: Theme)
        ensures
            theme == self@.theme,
    {
        self.theme
    }

    /// The requests of a load of this bank's theme, in the order in which
    /// `load_audio_samples` expects their reads.
    pub fn load_requests(&self) -> (requests: Vec<AssetRequest>)
        ensures
            requests@.len() == LOAD_REQUESTS,
            forall|k: int| 0 <= k < LOAD_REQUESTS ==> (#[trigger] requests@[k]).is_request(self@.theme, k),
    {
        let mut requests: Vec<AssetRequest> = Vec::new();
        let mut k: usize = 0;
        while k < LOAD_REQUESTS
            invariant
                k <= LOAD_REQUESTS,
                requests@.len() == k,
                forall|j: int| 0 <= j < k ==> (#[trigger] requests@[j]).is_request(self@.theme, j),
            decreases LOAD_REQUESTS - k,
        {
            let key_press = if k % 2 == 0 {
                KeyPressType::Release
            } else {
                KeyPressType::Press
            };
            match audio_file(k / 2) {
                Some(audio) => {
                    requests.push(
                        AssetRequest {
                            key_press,
                            sound_type: audio.1,
                            directory: directory_path(self.theme, key_press),
                            path: asset_path(self.theme, key_press, audio.0),
                        },
                    );
                },
                None => {},
            }
            k += 1;
        }
        requests
    }

    /// Takes in what reading one asset file gave. The bytes of a file that
    /// was read are kept as a clip of the file's category for the key state;
    /// a file that is absent leaves a gap and is no error; a directory that
    /// is absent, or a file that cannot be read, fails the load and names the
    /// path.
    pub fn load_audio_on_memory(
        &mut self,
        audio: &(&str, SoundType),
        keypress: KeyPressType,
        read: AssetRead,
    ) -> (result: Result<(), LoadError>)
        ensures
            final(self)@ == old(self)@.with_read(keypress, audio.1, read),
            match result {
                Ok(_) => read_failure(old(self)@.theme, keypress, audio.0@, read) is None,
                Err(e) => read_failure(old(self)@.theme, keypress, audio.0@, read) == Some(e@),
            },
    {
        match read {
            AssetRead::NoDirectory => Err(
                LoadError::MissingDirectory { path: directory_path(self.theme, keypress) },
            ),
            AssetRead::Unreadable => Err(
                LoadError::UnreadableAsset { path: asset_path(self.theme, keypress, audio.0) },
            ),
            AssetRead::Missing => Ok(()),
            AssetRead::Contents(buffer) => {
                let sound = KeyboardButtonSound::new(audio.1, buffer);
                match keypress {
                    KeyPressType::Press => {
                        self.audio_press.push(sound);
                        assert(clip_views(self.audio_press@) =~= clip_views(old(self).audio_press@).push(sound@));
                    },
                    KeyPressType::Release => {
                        self.audio_release.push(sound);
                        assert(clip_views(self.audio_release@) =~= clip_views(old(self).audio_release@).push(sound@));
                    },
                }
                Ok(())
            },
        }
    }

    /// Loads the theme's clips from the reads of its asset files. The load
    /// asks for every configured file twice, for the release and then for
    /// the press, and `reads` answers those requests in that order. Reads are
    /// taken in until the first that is fatal, which ends the load with its
    /// error and leaves in the bank what was taken in before it.
    pub fn load_audio_samples(&mut self, reads: Vec<AssetRead>) -> (result: Result<(), LoadError>)
        ensures
            reads@.len() != LOAD_REQUESTS ==> {
                &&& final(self)@ == old(self)@
                &&& result matches Err(e)
                &&& e@ == (LoadFailure::WrongReadCount {
                    expected: LOAD_REQUESTS as nat,
                    given: reads@.len(),
                })
            },
            reads@.len() == LOAD_REQUESTS ==> {
                let stop = first_fatal(reads@, 0);
                &&& ends_load(reads@, stop)
                &&& final(self)@ == old(self)@.with_reads(reads@, stop as nat)
                &&& match result {
                    Ok(_) => stop == LOAD_REQUESTS,
                    Err(e) => stop < LOAD_REQUESTS && request_failure(old(self)@.theme, reads@, stop)
                        == Some(e@),
                }
            },
    {
        if reads.len() != LOAD_REQUESTS {
            return Err(LoadError::WrongReadCount { expected: LOAD_REQUESTS, given: reads.len() });
        }
        let ghost all = reads@;
        let ghost theme = self@.theme;
        let mut k: usize = 0;
        for read in it: reads
            invariant
                all.len() == LOAD_REQUESTS,
                it.seq() == all,
                k == it.index(),
                theme == old(self)@.theme,
                self@ == old(self)@.with_reads(all, k as nat),
                first_fatal(all, 0) == first_fatal(all, k as int),
                forall|j: int| 0 <= j < k ==> !(#[trigger] all[j]).is_fatal(),
        {
            let keypress = if k % 2 == 0 {
                KeyPressType::Release
            } else {
                KeyPressType::Press
            };
            match audio_file(k / 2) {
                Some(audio) => {
                    match self.load_audio_on_memory(&audio, keypress, read) {
                        Ok(_) => {},
                        Err(e) => {
                            return Err(e);
                        },
                    }
                },
                None => {},
            }
            k += 1;
        }
        Ok(())
    }

    /// A copy of the encoded clip for a key state and a category, or nothing
    /// where no clip of that category was loaded for that state.
    pub fn get_audio_data(&self, keypress: &(KeyPressType, SoundType)) -> (audio: Option<Vec<u8>>)
        ensures
            match audio {
                Some(bytes) => self@.lookup(keypress.0, keypress.1) == Some(bytes@),
                None => self@.lookup(keypress.0, keypress.1) is None,
            },
    {
        let sounds = match keypress.0 {
            KeyPressType::Press => &self.audio_press,
            KeyPressType::Release => &self.audio_release,
        };
        let ghost clips = clip_views(sounds@);
        assert(clips == self@.clips(keypress.0));
        assert(clips.subrange(0, clips.len() as int) =~= clips);
        let mut i: usize = 0;
        while i < sounds.len()
            invariant
                i <= sounds.len(),
                clips == clip_views(sounds@),
                clips == self@.clips(keypress.0),
                first_clip(clips, keypress.1) == first_clip(clips.subrange(i as int, clips.len() as int), keypress.1),
            decreases sounds.len() - i,
        {
            let ghost rest = clips.subrange(i as int, clips.len() as int);
            assert(rest[0] == sounds@[i as int]@);
            assert(rest.drop_first() =~= clips.subrange(i + 1, clips.len() as int));
            if sounds[i].sound_type == keypress.1 {
                let bytes = sounds[i].data.clone();
                assert(bytes@ =~= sounds@[i as int].data@);
                return Some(bytes);
            }
            i += 1;
        }
        assert(clips.subrange(i as int, clips.len() as int).len() == 0);
        None
    }
}

/// Whether the read that answers request `k` supplies a clip for the key
/// state and the category: the request asks for a file of that category for
/// that state, and the file was read.
pub open spec fn supplies(reads: Seq<AssetRead>, k: int, key_press: KeyPressType, sound_type: SoundType) -> bool {
    &&& 0 <= k < reads.len()
    &&& request_key_press(k) == key_press
    &&& spec_audio_file(request_file(k)).1 == sound_type
    &&& reads[k] is Contents
}

/// A clip added at the end is found only where no earlier clip of the
/// category is.
pub proof fn lemma_first_clip_push(clips: Seq<SoundClip>, clip: SoundClip, sound_type: SoundType)
    ensures
        first_clip(clips.push(clip), sound_type) == match first_clip(clips, sound_type) {
            Some(data) => Some(data),
            None => if clip.sound_type == sound_type {
                Some(clip.data)
            } else {
                None
            },
        },
    decreases clips.len(),
{
    if clips.len() == 0 {
        assert(clips.push(clip).drop_first() =~= Seq::<SoundClip>::empty());
    } else {
        assert(clips.push(clip).drop_first() =~= clips.drop_first().push(clip));
        lemma_first_clip_push(clips.drop_first(), clip, sound_type);
    }
}

/// What a lookup gives after the first `n` reads of a load into an empty
/// bank, stated for both outcomes at once.
proof fn lemma_lookup_after_reads(
    theme: Theme,
    reads: Seq<AssetRead>,
    n: nat,
    key_press: KeyPressType,
    sound_type: SoundType,
)
    requires
        n <= reads.len(),
    ensures
        (forall|k: int| 0 <= k < n ==> !supplies(reads, k, key_press, sound_type))
            ==> SoundBank::empty(theme).with_reads(reads, n).lookup(key_press, sound_type) is None,
        forall|k: int|
            0 <= k < n && supplies(reads, k, key_press, sound_type) && (forall|j: int|
                0 <= j < k ==> !supplies(reads, j, key_press, sound_type)) ==> SoundBank::empty(
                theme,
            ).with_reads(reads, n).lookup(key_press, sound_type) == Some(reads[k]->Contents_0@),
    decreases n,
{
    if n > 0 {
        let last = n - 1;
        let before = SoundBank::empty(theme).with_reads(reads, last as nat);
        let after = SoundBank::empty(theme).with_reads(reads, n);
        lemma_lookup_after_reads(theme, reads, last as nat, key_press, sound_type);
        assert(after == before.with_read(
            request_key_press(last),
            spec_audio_file(request_file(last)).1,
            reads[last],
        ));
        match reads[last] {
            AssetRead::Contents(bytes) => {
                let clip = SoundClip { sound_type: spec_audio_file(request_file(last)).1, data: bytes@ };
                if request_key_press(last) == key_press {
                    lemma_first_clip_push(before.clips(key_press), clip, sound_type);
                }
            },
            _ => {},
        }
        if supplies(reads, last, key_press, sound_type) {
            assert(after.lookup(key_press, sound_type) == match before.lookup(key_press, sound_type) {
                Some(data) => Some(data),
                None => Some(reads[last]->Contents_0@),
            });
        } else {
            assert(after.lookup(key_press, sound_type) == before.lookup(key_press, sound_type));
        }
    }
}

/// After any number of reads into an empty bank, a key state and a category
/// for which a file was read select the bytes of that file, the first such
/// file where several serve the same category.
pub proof fn lemma_lookup_returns_file_contents(
    theme: Theme,
    reads: Seq<AssetRead>,
    n: nat,
    key_press: KeyPressType,
    sound_type: SoundType,
    k: int,
)
    requires
        n <= reads.len(),
        0 <= k < n,
        supplies(reads, k, key_press, sound_type),
        forall|j: int| 0 <= j < k ==> !supplies(reads, j, key_press, sound_type),
    ensures
        SoundBank::empty(theme).with_reads(reads, n).lookup(key_press, sound_type) == Some(
            reads[k]->Contents_0@,
        ),
{
    lemma_lookup_after_reads(theme, reads, n, key_press, sound_type);
}

/// After any number of reads into an empty bank, a key state and a category
/// for which no file was read select nothing.
pub proof fn lemma_lookup_returns_nothing_without_file(
    theme: Theme,
    reads: Seq<AssetRead>,
    n: nat,
    key_press: KeyPressType,
    sound_type: SoundType,
)
    requires
        n <= reads.len(),
        forall|k: int| 0 <= k < n ==> !supplies(reads, k, key_press, sound_type),
    ensures
        SoundBank::empty(theme).with_reads(reads, n).lookup(key_press, sound_type) is None,
{
    lemma_lookup_after_reads(theme, reads, n, key_press, sound_type);
}

} // verus!
