//! The player: where the cursor stands, what plays, and what a key does.
//!
//! The player decides; whoever drives it acts. It holds the handle of the
//! stream that plays, of a type `A` of the driver's choice, and gives it back
//! when the stream is to be stopped.

use vstd::prelude::*;
use crate::icy::text_of;
use crate::station::{
    categories, count_members, law_categories_in_order, law_members, list_categories,
    list_members, members, texts, Station,
};
use crate::wave::{is_glyph_text, WaveFrame};

verus! {

/// How often a stream that died is started again before the player gives up.
pub const MAX_RECONNECT: u8 = 3;

/// The bit of a key's modifiers that stands for the control key.
pub const CONTROL: u8 = 0b0000_0010;

/// The volume from which to count if the current one is not known.
pub const ASSUMED_VOLUME: u8 = 50;

/// How much one key press changes the volume.
pub const VOLUME_STEP: i32 = 5;

/// Whether a key went down, is held, or went up.
#[derive(Clone, Copy, PartialEq, Eq, Structural, Debug)]
pub enum KeyKind {
    Press,
    Repeat,
    Release,
}

/// The keys that the player tells apart.
#[derive(Clone, Copy, PartialEq, Eq, Structural, Debug)]
pub enum KeyCode {
    Char(char),
    Up,
    Down,
    Tab,
    BackTab,
    Enter,
    Other,
}

/// A key event.
#[derive(Clone, Copy, PartialEq, Eq, Structural, Debug)]
pub struct Key {
    pub code: KeyCode,
    pub modifiers: u8,
    pub kind: KeyKind,
}

/// What happens to the player.
#[derive(PartialEq, Eq, Debug)]
pub enum AppEvent {
    /// A key event.
    Key(Key),
    /// The terminal has a new size, in columns and rows.
    Resize(u16, u16),
    /// Input that means nothing to the player.
    OtherInput,
    /// The meter has a new frame.
    Wave(WaveFrame),
    /// The title of the track changed.
    Metadata(Option<String>),
    /// The stream ended.
    StreamDied,
    /// Time passed.
    Tick,
}

/// What to tell the process that plays.
#[derive(Clone, Copy, PartialEq, Eq, Structural, Debug)]
pub enum Signal {
    Stop,
    Continue,
}

/// What the driver has to do about an event.
#[derive(PartialEq, Eq, Debug)]
pub enum Action<A> {
    /// Nothing.
    Nothing,
    /// Leave the player.
    Quit,
    /// Play the station at this position.
    Play(usize),
    /// Stop this stream, if there is one.
    Halt(Option<A>),
    /// Send this to the process that plays.
    Send(Signal),
    /// Set the volume of the system.
    SetVolume(u8),
    /// Draw everything anew.
    ClearAll,
}

/// What is known of the process that plays.
#[derive(Clone, Copy, PartialEq, Eq, Structural, Debug)]
pub enum ChildState {
    /// It runs.
    Running,
    /// It has exited.
    Exited,
    /// The question was not answered.
    Unknown,
}

/// What the driver has to do to play a station.
#[derive(PartialEq, Eq, Debug)]
pub enum StartStep<A> {
    /// Nothing: it plays already.
    AlreadyPlaying,
    /// Stop the old stream, and start the one at `url`.
    Launch { old: Option<A>, url: &'static str },
}

/// What the driver has to do after a look at the stream.
#[derive(PartialEq, Eq, Debug)]
pub enum CheckStep<A> {
    /// Nothing.
    Nothing,
    /// Let go of a stream that belongs to no station.
    Forget(A),
    /// Stop the stream for good.
    GiveUp(A),
    /// Stop the dead stream, and start the one at `url`.
    Relaunch { dead: A, url: &'static str },
}

/// The state of the player.
pub struct AppState<A> {
    /// The stations to choose from.
    pub stations: Seq<Station>,
    /// The category under the cursor.
    pub category: int,
    /// The station under the cursor, counted within the category, or -1 if
    /// the cursor stands on the category itself.
    pub station: int,
    /// The station that plays.
    pub current: Option<usize>,
    pub paused: bool,
    /// The stream that plays.
    pub audio: Option<A>,
    /// How often the stream was started again.
    pub attempts: nat,
    pub wave_top: Seq<char>,
    pub wave_bot: Seq<char>,
    /// The title of the track.
    pub metadata: Option<Seq<char>>,
    pub volume: Option<u8>,
    /// Columns and rows of the terminal.
    pub size: (u16, u16),
}

/// The stations of the category under the cursor.
pub open spec fn shown<A>(s: AppState<A>) -> Seq<usize> {
    members(s.stations, categories(s.stations)[s.category])
}

/// What holds of the player at all times.
pub open spec fn valid<A>(s: AppState<A>) -> bool {
    &&& 0 < s.stations.len() <= i32::MAX
    &&& 0 <= s.category < categories(s.stations).len()
    &&& -1 <= s.station < shown(s).len()
    &&& s.current matches Some(i) ==> i < s.stations.len()
    &&& s.attempts <= MAX_RECONNECT
    &&& is_glyph_text(s.wave_top)
    &&& is_glyph_text(s.wave_bot)
}

/// The cursor one line up: to the station before, from the first station to
/// its category, from a category to the one before.
pub open spec fn moved_up<A>(s: AppState<A>) -> AppState<A> {
    if s.station >= 0 {
        AppState { station: s.station - 1, ..s }
    } else if s.category > 0 {
        AppState { category: s.category - 1, ..s }
    } else {
        s
    }
}

/// The cursor one line down: to the next station, from the last station or
/// from a category to the next category.
pub open spec fn moved_down<A>(s: AppState<A>) -> AppState<A> {
    if s.station >= 0 && s.station < shown(s).len() - 1 {
        AppState { station: s.station + 1, ..s }
    } else if s.category < categories(s.stations).len() - 1 {
        AppState { category: s.category + 1, station: -1, ..s }
    } else {
        s
    }
}

/// The cursor one step around its category: through the stations, and from
/// the last one back to the category.
pub open spec fn cycled<A>(s: AppState<A>) -> AppState<A> {
    AppState {
        station: if s.station < shown(s).len() - 1 {
            s.station + 1
        } else {
            -1
        },
        ..s
    }
}

/// The cursor back on its category.
pub open spec fn backed_out<A>(s: AppState<A>) -> AppState<A> {
    AppState { station: -1, ..s }
}

/// The station that Enter means: the one under the cursor, or the first of
/// the category.
pub open spec fn chosen<A>(s: AppState<A>) -> usize {
    shown(s)[if s.station == -1 {
        0
    } else {
        s.station
    }]
}

/// The player without a stream. The station stays noted.
pub open spec fn silenced<A>(s: AppState<A>) -> AppState<A> {
    AppState {
        paused: false,
        audio: None,
        attempts: 0,
        wave_top: seq![],
        wave_bot: seq![],
        metadata: None,
        ..s
    }
}

/// The volume from which to count.
pub open spec fn known_volume(volume: Option<u8>) -> int {
    match volume {
        Some(v) => v as int,
        None => ASSUMED_VOLUME as int,
    }
}

/// The volume changed by `delta`, kept between 0 and 100.
pub open spec fn new_volume(volume: Option<u8>, delta: int) -> u8 {
    let current = known_volume(volume);
    if current + delta < 0 {
        0
    } else if current + delta > 100 {
        100
    } else {
        (current + delta) as u8
    }
}

/// The player after a key went down.
pub open spec fn after_press<A>(s: AppState<A>, code: KeyCode) -> AppState<A> {
    match code {
        KeyCode::Up | KeyCode::Char('k') => moved_up(s),
        KeyCode::Down | KeyCode::Char('j') => moved_down(s),
        KeyCode::Tab => cycled(s),
        KeyCode::BackTab | KeyCode::Char('b') => backed_out(s),
        KeyCode::Char('s') => AppState { current: None, ..silenced(s) },
        KeyCode::Char('p') => if s.audio is Some {
            AppState { paused: !s.paused, ..s }
        } else {
            s
        },
        KeyCode::Char('+') | KeyCode::Char('=') => AppState {
            volume: Some(new_volume(s.volume, VOLUME_STEP as int)),
            ..s
        },
        KeyCode::Char('-') => AppState {
            volume: Some(new_volume(s.volume, -VOLUME_STEP as int)),
            ..s
        },
        _ => s,
    }
}

/// What a key that went down asks for.
pub open spec fn press_action<A>(s: AppState<A>, code: KeyCode, modifiers: u8) -> Action<A> {
    match code {
        KeyCode::Char('q') => Action::Quit,
        KeyCode::Char('c') => if modifiers == CONTROL {
            Action::Quit
        } else {
            Action::Nothing
        },
        KeyCode::Enter => Action::Play(chosen(s)),
        KeyCode::Char('s') => Action::Halt(s.audio),
        KeyCode::Char('p') => if s.audio is None {
            Action::Nothing
        } else if s.paused {
            Action::Send(Signal::Continue)
        } else {
            Action::Send(Signal::Stop)
        },
        KeyCode::Char('+') | KeyCode::Char('=') => Action::SetVolume(
            new_volume(s.volume, VOLUME_STEP as int),
        ),
        KeyCode::Char('-') => Action::SetVolume(new_volume(s.volume, -VOLUME_STEP as int)),
        _ => Action::Nothing,
    }
}

/// The player after a key event. Letting go of a key changes nothing.
pub open spec fn after_key<A>(s: AppState<A>, key: Key) -> AppState<A> {
    if key.kind == KeyKind::Release {
        s
    } else {
        after_press(s, key.code)
    }
}

/// What a key event asks for.
pub open spec fn key_action<A>(s: AppState<A>, key: Key) -> Action<A> {
    if key.kind == KeyKind::Release {
        Action::Nothing
    } else {
        press_action(s, key.code, key.modifiers)
    }
}

/// The station plays, and is not paused: there is nothing to start.
pub open spec fn plays_already<A>(s: AppState<A>, idx: usize, child: ChildState) -> bool {
    s.current == Some(idx) && s.audio is Some && child != ChildState::Exited && !s.paused
}

/// What a look at the stream finds.
pub enum Finding {
    /// There is no stream, or it runs.
    Fine,
    /// A stream that belongs to no station is over.
    Stray,
    /// The stream died too often.
    Hopeless,
    /// The stream died, and is worth another try.
    Dead,
}

/// What a look at the stream finds.
pub open spec fn finding<A>(s: AppState<A>, child: ChildState) -> Finding {
    if s.audio is None || child == ChildState::Running {
        Finding::Fine
    } else if s.current is None {
        Finding::Stray
    } else if s.attempts >= MAX_RECONNECT {
        Finding::Hopeless
    } else {
        Finding::Dead
    }
}

/// The player after a look at the stream.
pub open spec fn after_check<A>(s: AppState<A>, child: ChildState) -> AppState<A> {
    match finding(s, child) {
        Finding::Fine => s,
        Finding::Stray => AppState { audio: None, ..s },
        Finding::Hopeless => AppState { current: None, ..silenced(s) },
        Finding::Dead => AppState { audio: None, attempts: s.attempts + 1, ..s },
    }
}

/// What a look at the stream asks for.
pub open spec fn check_action<A>(s: AppState<A>, child: ChildState) -> CheckStep<A> {
    match finding(s, child) {
        Finding::Fine => CheckStep::Nothing,
        Finding::Stray => CheckStep::Forget(s.audio.unwrap()),
        Finding::Hopeless => CheckStep::GiveUp(s.audio.unwrap()),
        Finding::Dead => CheckStep::Relaunch {
            dead: s.audio.unwrap(),
            url: s.stations[s.current.unwrap() as int].url,
        },
    }
}

/// The player after an event.
pub open spec fn after_event<A>(s: AppState<A>, event: AppEvent) -> AppState<A> {
    match event {
        AppEvent::Key(key) => after_key(s, key),
        AppEvent::Resize(columns, rows) => AppState { size: (columns, rows), ..s },
        AppEvent::Wave(frame) => AppState { wave_top: frame.top@, wave_bot: frame.bot@, ..s },
        AppEvent::Metadata(title) => AppState { metadata: text_of(title), ..s },
        AppEvent::OtherInput | AppEvent::StreamDied | AppEvent::Tick => s,
    }
}

/// What an event asks for.
pub open spec fn event_action<A>(s: AppState<A>, event: AppEvent) -> Action<A> {
    match event {
        AppEvent::Key(key) => key_action(s, key),
        AppEvent::Resize(_, _) => Action::ClearAll,
        _ => Action::Nothing,
    }
}

/// The player.
#[derive(Debug)]
pub struct App<A> {
    pub stations: Vec<Station>,
    pub categories: Vec<&'static str>,
    pub cat_counts: Vec<usize>,
    pub category_cursor: usize,
    pub station_cursor: i32,
    pub expanded: Vec<usize>,
    pub current_idx: Option<usize>,
    pub paused: bool,
    pub audio: Option<A>,
    pub reconnect_attempts: u8,
    pub wave_top: String,
    pub wave_bot: String,
    pub metadata: Option<String>,
    pub volume: Option<u8>,
    pub term_size: (u16, u16),
}

impl<A> View for App<A> {
    type V = AppState<A>;

    open spec fn view(&self) -> AppState<A> {
        AppState {
            stations: self.stations@,
            category: self.category_cursor as int,
            station: self.station_cursor as int,
            current: self.current_idx,
            paused: self.paused,
            audio: self.audio,
            attempts: self.reconnect_attempts as nat,
            wave_top: self.wave_top@,
            wave_bot: self.wave_bot@,
            metadata: text_of(self.metadata),
            volume: self.volume,
            size: self.term_size,
        }
    }
}

impl<A> App<A> {
    /// The lists of categories and of their sizes belong to the stations.
    pub open spec fn lists_match(&self) -> bool {
        &&& texts(self.categories@) == categories(self.stations@)
        &&& self.cat_counts@.len() == self.categories@.len()
        &&& forall|k: int|
            0 <= k < self.categories@.len() ==> #[trigger] self.cat_counts@[k] == members(
                self.stations@,
                self.categories@[k]@,
            ).len()
    }

    /// The state is valid, and what is kept beside it follows from it.
    pub open spec fn wf(&self) -> bool {
        &&& valid(self@)
        &&& self.lists_match()
        &&& self.expanded@ == shown(self@)
    }

    /// A player that plays nothing, with the cursor on the first category.
    /// The size of the terminal and the volume are taken as far as known.
    pub fn new(
        stations: Vec<Station>,
        term_size: Option<(u16, u16)>,
        volume: Option<u8>,
    ) -> (app: App<A>)
        requires
            0 < stations@.len() <= i32::MAX,
        ensures
            app.wf(),
            app@ == (AppState::<A> {
                stations: stations@,
                category: 0,
                station: -1,
                current: None,
                paused: false,
                audio: None,
                attempts: 0,
                wave_top: seq![],
                wave_bot: seq![],
                metadata: None,
                volume,
                size: match term_size {
                    Some(size) => size,
                    None => (80u16, 24u16),
                },
            }),
    {
        let categories: Vec<&'static str> = list_categories(&stations);
        let cat_counts: Vec<usize> = count_members(&stations, &categories);
        let mut app: App<A> = App {
            stations,
            categories,
            cat_counts,
            category_cursor: 0,
            station_cursor: -1,
            expanded: Vec::new(),
            current_idx: None,
            paused: false,
            audio: None,
            reconnect_attempts: 0,
            wave_top: String::new(),
            wave_bot: String::new(),
            metadata: None,
            volume,
            term_size: match term_size {
                Some(size) => size,
                None => (80, 24),
            },
        };
        proof {
            lemma_some_category(app.stations@);
        }
        app.expand_current_category();
        app
    }

    /// Lists the stations of the category under the cursor.
    pub fn expand_current_category(&mut self)
        requires
            old(self).lists_match(),
            old(self).category_cursor < old(self).categories@.len(),
        ensures
            final(self).expanded@ == shown(old(self)@),
            *final(self) == (App { expanded: final(self).expanded, ..*old(self) }),
    {
        let category: &'static str = self.categories[self.category_cursor];
        assert(texts(self.categories@)[self.category_cursor as int] == category@);
        self.expanded = list_members(&self.stations, category);
    }

    /// What a key does.
    pub fn handle_key(&mut self, key: Key) -> (action: Action<A>)
        requires
            old(self).wf(),
        ensures
            final(self).wf(),
            final(self)@ == after_key(old(self)@, key),
            action == key_action(old(self)@, key),
    {
        if key.kind == KeyKind::Release {
            return Action::Nothing;
        }
        match key.code {
            KeyCode::Char('q') => Action::Quit,
            KeyCode::Char('c') => if key.modifiers == CONTROL {
                Action::Quit
            } else {
                Action::Nothing
            },
            KeyCode::Up | KeyCode::Char('k') => {
                self.move_up();
                Action::Nothing
            },
            KeyCode::Down | KeyCode::Char('j') => {
                self.move_down();
                Action::Nothing
            },
            KeyCode::Tab => {
                self.cycle_station();
                Action::Nothing
            },
            KeyCode::Enter => Action::Play(self.chosen_station()),
            KeyCode::BackTab | KeyCode::Char('b') => {
                proof {
                    lemma_shown(self@);
                }
                self.station_cursor = -1;
                Action::Nothing
            },
            KeyCode::Char('s') => {
                let audio: Option<A> = self.stop_playback();
                self.current_idx = None;
                Action::Halt(audio)
            },
            KeyCode::Char('p') => match self.toggle_pause() {
                Some(signal) => Action::Send(signal),
                None => Action::Nothing,
            },
            KeyCode::Char('+') | KeyCode::Char('=') => {
                let volume: u8 = self.adjust_volume(VOLUME_STEP);
                Action::SetVolume(volume)
            },
            KeyCode::Char('-') => {
                let volume: u8 = self.adjust_volume(-VOLUME_STEP);
                Action::SetVolume(volume)
            },
            _ => Action::Nothing,
        }
    }

    /// Moves the cursor one line up.
    fn move_up(&mut self)
        requires
            old(self).wf(),
        ensures
            final(self).wf(),
            final(self)@ == moved_up(old(self)@),
    {
        if self.station_cursor >= 0 {
            self.station_cursor = self.station_cursor - 1;
        } else if self.category_cursor > 0 {
            self.category_cursor = self.category_cursor - 1;
            self.expand_current_category();
        }
    }

    /// Moves the cursor one line down.
    fn move_down(&mut self)
        requires
            old(self).wf(),
        ensures
            final(self).wf(),
            final(self)@ == moved_down(old(self)@),
    {
        proof {
            lemma_shown(self@);
            assert(texts(self.categories@).len() == self.categories@.len());
        }
        let last_station: i32 = self.expanded.len() as i32 - 1;
        if self.station_cursor >= 0 && self.station_cursor < last_station {
            self.station_cursor = self.station_cursor + 1;
        } else if self.category_cursor < self.categories.len() - 1 {
            self.station_cursor = -1;
            self.category_cursor = self.category_cursor + 1;
            self.expand_current_category();
        }
    }

    /// Moves the cursor one step around its category.
    fn cycle_station(&mut self)
        requires
            old(self).wf(),
        ensures
            final(self).wf(),
            final(self)@ == cycled(old(self)@),
    {
        proof {
            lemma_shown(self@);
        }
        let last_station: i32 = self.expanded.len() as i32 - 1;
        if self.station_cursor < last_station {
            self.station_cursor = self.station_cursor + 1;
        } else {
            self.station_cursor = -1;
        }
    }

    /// The station that Enter means.
    fn chosen_station(&self) -> (idx: usize)
        requires
            self.wf(),
        ensures
            idx == chosen(self@),
            idx < self.stations@.len(),
    {
        proof {
            lemma_shown(self@);
        }
        if self.station_cursor == -1 {
            self.expanded[0]
        } else {
            self.expanded[self.station_cursor as usize]
        }
    }

    /// Lets go of the stream, which the driver has to stop, and of what was
    /// known about it.
    pub fn stop_playback(&mut self) -> (audio: Option<A>)
        requires
            old(self).wf(),
        ensures
            final(self).wf(),
            final(self)@ == silenced(old(self)@),
            audio == old(self)@.audio,
    {
        let audio: Option<A> = self.audio.take();
        self.paused = false;
        self.wave_top = String::new();
        self.wave_bot = String::new();
        self.metadata = None;
        self.reconnect_attempts = 0;
        audio
    }

    /// Pauses a stream that plays, or resumes one that is paused: gives what
    /// to tell the process, if there is one.
    pub fn toggle_pause(&mut self) -> (signal: Option<Signal>)
        requires
            old(self).wf(),
        ensures
            final(self).wf(),
            old(self)@.audio is None ==> signal is None && *final(self) == *old(self),
            old(self)@.audio is Some ==> signal == Some(
                if old(self)@.paused {
                    Signal::Continue
                } else {
                    Signal::Stop
                },
            ) && final(self)@ == (AppState { paused: !old(self)@.paused, ..old(self)@ }),
    {
        if self.audio.is_none() {
            return None;
        }
        let signal: Signal = if self.paused {
            Signal::Continue
        } else {
            Signal::Stop
        };
        self.paused = !self.paused;
        Some(signal)
    }

    /// Changes the volume; gives the one to set.
    pub fn adjust_volume(&mut self, delta: i32) -> (volume: u8)
        requires
            old(self).wf(),
            known_volume(old(self)@.volume) + delta <= i32::MAX,
        ensures
            final(self).wf(),
            volume == new_volume(old(self)@.volume, delta as int),
            final(self)@ == (AppState { volume: Some(volume), ..old(self)@ }),
    {
        let current: i32 = match self.volume {
            Some(v) => v as i32,
            None => ASSUMED_VOLUME as i32,
        };
        let wanted: i32 = current + delta;
        let volume: u8 = if wanted < 0 {
            0
        } else if wanted > 100 {
            100
        } else {
            wanted as u8
        };
        self.volume = Some(volume);
        volume
    }

    /// Prepares to play a station. `child` tells of the process that plays
    /// now, if there is one. Behind [`StartStep::Launch`] the driver reports
    /// with [`App::launched`] if the stream was started.
    pub fn start_playback(&mut self, idx: usize, child: ChildState) -> (step: StartStep<A>)
        requires
            old(self).wf(),
            idx < old(self)@.stations.len(),
        ensures
            final(self).wf(),
            plays_already(old(self)@, idx, child) ==> step is AlreadyPlaying && *final(self)
                == *old(self),
            !plays_already(old(self)@, idx, child) ==> final(self)@ == silenced(old(self)@)
                && step == (StartStep::Launch {
                old: old(self)@.audio,
                url: old(self)@.stations[idx as int].url,
            }),
    {
        let current: bool = match self.current_idx {
            Some(i) => i == idx,
            None => false,
        };
        if current && self.audio.is_some() && child != ChildState::Exited && !self.paused {
            return StartStep::AlreadyPlaying;
        }
        let old: Option<A> = self.stop_playback();
        StartStep::Launch { old, url: self.stations[idx].url }
    }

    /// Notes that the station's stream was started.
    pub fn launched(&mut self, idx: usize, audio: A)
        requires
            old(self).wf(),
            idx < old(self)@.stations.len(),
        ensures
            final(self).wf(),
            final(self)@ == (AppState {
                audio: Some(audio),
                current: Some(idx),
                attempts: 0,
                paused: false,
                ..old(self)@
            }),
    {
        self.audio = Some(audio);
        self.current_idx = Some(idx);
        self.reconnect_attempts = 0;
        self.paused = false;
    }

    /// Takes a look at the stream: `child` tells of its process. Behind
    /// [`CheckStep::Relaunch`] the driver reports with [`App::relaunched`] or
    /// [`App::relaunch_failed`].
    pub fn check_playback(&mut self, child: ChildState) -> (step: CheckStep<A>)
        requires
            old(self).wf(),
        ensures
            final(self).wf(),
            final(self)@ == after_check(old(self)@, child),
            step == check_action(old(self)@, child),
    {
        if self.audio.is_none() || child == ChildState::Running {
            return CheckStep::Nothing;
        }
        let idx: usize = match self.current_idx {
            Some(idx) => idx,
            None => {
                return match self.audio.take() {
                    Some(stray) => CheckStep::Forget(stray),
                    None => CheckStep::Nothing,
                };
            },
        };
        if self.reconnect_attempts >= MAX_RECONNECT {
            let last: Option<A> = self.stop_playback();
            self.current_idx = None;
            return match last {
                Some(audio) => CheckStep::GiveUp(audio),
                None => CheckStep::Nothing,
            };
        }
        self.reconnect_attempts = self.reconnect_attempts + 1;
        let url: &'static str = self.stations[idx].url;
        match self.audio.take() {
            Some(dead) => CheckStep::Relaunch { dead, url },
            None => CheckStep::Nothing,
        }
    }

    /// Notes that the stream was started again.
    pub fn relaunched(&mut self, audio: A)
        requires
            old(self).wf(),
        ensures
            final(self).wf(),
            final(self)@ == (AppState { audio: Some(audio), ..old(self)@ }),
    {
        self.audio = Some(audio);
    }

    /// Notes that the stream could not be started again.
    pub fn relaunch_failed(&mut self)
        requires
            old(self).wf(),
        ensures
            final(self).wf(),
            final(self)@ == (AppState { current: None, ..old(self)@ }),
    {
        self.current_idx = None;
    }

    /// What an event does.
    pub fn handle_event(&mut self, event: AppEvent) -> (action: Action<A>)
        requires
            old(self).wf(),
            event matches AppEvent::Wave(frame) ==> is_glyph_text(frame.top@) && is_glyph_text(
                frame.bot@,
            ),
        ensures
            final(self).wf(),
            final(self)@ == after_event(old(self)@, event),
            action == event_action(old(self)@, event),
    {
        match event {
            AppEvent::Key(key) => self.handle_key(key),
            AppEvent::Resize(columns, rows) => {
                self.term_size = (columns, rows);
                Action::ClearAll
            },
            AppEvent::Wave(frame) => {
                self.wave_top = frame.top;
                self.wave_bot = frame.bot;
                Action::Nothing
            },
            AppEvent::Metadata(title) => {
                self.metadata = title;
                Action::Nothing
            },
            // A stream that died is found by the next look at it.
            AppEvent::OtherInput | AppEvent::StreamDied | AppEvent::Tick => Action::Nothing,
        }
    }
}

/// The list of stations under the cursor is not empty, is not longer than the
/// list of all, and holds positions in it.
pub proof fn lemma_shown<A>(s: AppState<A>)
    requires
        valid(s),
    ensures
        0 < shown(s).len() <= s.stations.len(),
        forall|k: int| 0 <= k < shown(s).len() ==> #[trigger] shown(s)[k] < s.stations.len(),
{
    let category = categories(s.stations)[s.category];
    law_categories_in_order(s.stations);
    law_members(s.stations, category);
    lemma_members_len(s.stations, category);
}

proof fn lemma_members_len(stations: Seq<Station>, category: Seq<char>)
    ensures
        members(stations, category).len() <= stations.len(),
    decreases stations.len(),
{
    if stations.len() > 0 {
        lemma_members_len(stations.drop_last(), category);
    }
}

proof fn lemma_some_category(stations: Seq<Station>)
    requires
        stations.len() > 0,
    ensures
        categories(stations).len() > 0,
{
    let before = categories(stations.drop_last());
    if before.contains(stations.last().category@) {
        let k = choose|k: int| 0 <= k < before.len() && before[k] == stations.last().category@;
    }
}

/// What the events of one turn add up to.
#[derive(Clone, Copy, PartialEq, Eq, Structural, Debug)]
pub struct Turn {
    pub should_quit: bool,
    pub needs_full_clear: bool,
}

/// How a turn ends.
#[derive(Clone, Copy, PartialEq, Eq, Structural, Debug)]
pub enum TurnEnd {
    /// Leave the player.
    Quit,
    /// Check the stream once, and draw the screen once, cleared first if
    /// `clear` is set.
    CheckAndDraw { clear: bool },
}

impl Turn {
    /// A turn without events.
    pub fn new() -> (turn: Turn)
        ensures
            turn == (Turn { should_quit: false, needs_full_clear: false }),
    {
        Turn { should_quit: false, needs_full_clear: false }
    }

    /// Notes what an event asked for: once it was to quit, or to draw anew,
    /// the turn ends so.
    pub fn note<A>(&mut self, action: &Action<A>)
        ensures
            final(self).should_quit == (old(self).should_quit || *action is Quit),
            final(self).needs_full_clear == (old(self).needs_full_clear || *action is ClearAll),
    {
        match action {
            Action::Quit => {
                self.should_quit = true;
            },
            Action::ClearAll => {
                self.needs_full_clear = true;
            },
            _ => {},
        }
    }

    /// How the turn ends: to quit goes before anything else.
    pub fn end(&self) -> (end: TurnEnd)
        ensures
            end is Quit <==> self.should_quit,
            end matches TurnEnd::CheckAndDraw { clear } ==> clear == self.needs_full_clear,
    {
        if self.should_quit {
            TurnEnd::Quit
        } else {
            TurnEnd::CheckAndDraw { clear: self.needs_full_clear }
        }
    }
}

/// Up undoes down: from a category that has a next one, and from a station
/// that is not the last of its category.
pub proof fn law_up_undoes_down<A>(s: AppState<A>)
    requires
        valid(s),
        s.station < shown(s).len() - 1,
        s.station >= 0 || s.category < categories(s.stations).len() - 1,
    ensures
        moved_up(moved_down(s)) == s,
{
}

/// Down undoes up: from a category that is not the first, and from a station
/// that is not the first of its category.
pub proof fn law_down_undoes_up<A>(s: AppState<A>)
    requires
        valid(s),
        s.station != 0,
        s.station > 0 || s.category > 0,
    ensures
        moved_down(moved_up(s)) == s,
{
}

/// The cursor so many lines further down.
pub open spec fn moved_down_times<A>(s: AppState<A>, n: nat) -> AppState<A>
    decreases n,
{
    if n == 0 {
        s
    } else {
        moved_down(moved_down_times(s, (n - 1) as nat))
    }
}

/// From a category the cursor goes down one category at each step, until it
/// stands on the last one.
pub proof fn law_down_passes_the_categories<A>(s: AppState<A>, n: nat)
    requires
        valid(s),
        s.station == -1,
    ensures
        moved_down_times(s, n) == (AppState {
            category: if s.category + n < categories(s.stations).len() {
                s.category + n
            } else {
                categories(s.stations).len() - 1
            },
            ..s
        }),
    decreases n,
{
    if n > 0 {
        law_down_passes_the_categories(s, (n - 1) as nat);
    }
}

/// Enter plays a station of the category under the cursor.
pub proof fn law_enter_plays_from_the_category<A>(s: AppState<A>)
    requires
        valid(s),
    ensures
        chosen(s) < s.stations.len(),
        s.stations[chosen(s) as int].category@ == categories(s.stations)[s.category],
{
    lemma_shown(s);
    law_members(s.stations, categories(s.stations)[s.category]);
}

/// The cursor after so many steps around its category.
pub open spec fn cycled_times<A>(s: AppState<A>, n: nat) -> AppState<A>
    decreases n,
{
    if n == 0 {
        s
    } else {
        cycled(cycled_times(s, (n - 1) as nat))
    }
}

/// The steps go around: through the category and each of its stations, and
/// back to where they began.
pub proof fn law_cycle_closes<A>(s: AppState<A>)
    requires
        valid(s),
    ensures
        cycled_times(s, (shown(s).len() + 1) as nat) == s,
{
    let len = shown(s).len() as int;
    let to_end = (len - 1 - s.station) as nat;
    lemma_cycle_forward(s, to_end);
    let turned = cycled_times(s, (to_end + 1) as nat);
    assert(turned == AppState { station: -1, ..s });
    lemma_cycle_forward(turned, (s.station + 1) as nat);
    lemma_cycle_joins(s, (to_end + 1) as nat, (s.station + 1) as nat);
    assert(to_end + 1 + (s.station + 1) == len + 1);
}

proof fn lemma_cycle_forward<A>(s: AppState<A>, n: nat)
    requires
        s.station + n < shown(s).len(),
    ensures
        cycled_times(s, n) == (AppState { station: s.station + n, ..s }),
    decreases n,
{
    if n > 0 {
        lemma_cycle_forward(s, (n - 1) as nat);
    }
}

proof fn lemma_cycle_joins<A>(s: AppState<A>, m: nat, n: nat)
    ensures
        cycled_times(cycled_times(s, m), n) == cycled_times(s, m + n),
    decreases n,
{
    if n > 0 {
        lemma_cycle_joins(s, m, (n - 1) as nat);
    }
}

/// Moving the cursor leaves what plays alone.
pub proof fn law_browsing_keeps_playing<A>(s: AppState<A>, code: KeyCode)
    requires
        code == KeyCode::Up || code == KeyCode::Down || code == KeyCode::Tab || code
            == KeyCode::BackTab || code == KeyCode::Char('j') || code == KeyCode::Char('k')
            || code == KeyCode::Char('b'),
    ensures
        (AppState { category: s.category, station: s.station, ..after_press(s, code) }) == s,
        forall|modifiers: u8| #[trigger] press_action(s, code, modifiers) is Nothing,
{
}

/// A stream is never lost: an event leaves it with the player, or hands it to
/// the driver to be stopped.
pub proof fn law_events_keep_the_stream<A>(s: AppState<A>, event: AppEvent)
    ensures
        after_event(s, event).audio == s.audio || (after_event(s, event).audio is None
            && event_action(s, event) == Action::Halt(s.audio)),
{
}

/// Nor does a look at the stream lose it.
pub proof fn law_checks_keep_the_stream<A>(s: AppState<A>, child: ChildState)
    requires
        s.audio is Some,
    ensures
        after_check(s, child).audio == s.audio && check_action(s, child) is Nothing || (
        after_check(s, child).audio is None && (check_action(s, child) == CheckStep::Forget(
            s.audio.unwrap(),
        ) || check_action(s, child) == CheckStep::GiveUp(s.audio.unwrap()) || (check_action(
            s,
            child,
        ) matches CheckStep::Relaunch { dead, .. } && dead == s.audio.unwrap()))),
{
}

/// Pausing and resuming leaves the player as it was, and tells the process to
/// stop and to continue, or the other way round.
pub proof fn law_pause_twice<A>(s: AppState<A>, modifiers: u8)
    requires
        s.audio is Some,
    ensures
        after_press(after_press(s, KeyCode::Char('p')), KeyCode::Char('p')) == s,
        press_action(s, KeyCode::Char('p'), modifiers) == Action::<A>::Send(
            if s.paused {
                Signal::Continue
            } else {
                Signal::Stop
            },
        ),
        press_action(after_press(s, KeyCode::Char('p')), KeyCode::Char('p'), modifiers)
            == Action::<A>::Send(
            if s.paused {
                Signal::Stop
            } else {
                Signal::Continue
            },
        ),
{
}

/// A changed volume lies between 0 and 100, and one step up is undone by one
/// step down unless the bound cut it short.
pub proof fn law_volume(volume: Option<u8>)
    ensures
        new_volume(volume, VOLUME_STEP as int) <= 100,
        new_volume(volume, -VOLUME_STEP as int) <= 100,
        known_volume(volume) + VOLUME_STEP <= 100 ==> new_volume(
            Some(new_volume(volume, VOLUME_STEP as int)),
            -VOLUME_STEP as int,
        ) == known_volume(volume),
        VOLUME_STEP <= known_volume(volume) <= 100 ==> new_volume(
            Some(new_volume(volume, -VOLUME_STEP as int)),
            VOLUME_STEP as int,
        ) == known_volume(volume),
{
}

/// The player after its stream died and was started again, once for each of
/// `streams`.
pub open spec fn revived<A>(s: AppState<A>, streams: Seq<A>) -> AppState<A>
    decreases streams.len(),
{
    if streams.len() == 0 {
        s
    } else {
        AppState {
            audio: Some(streams.last()),
            ..after_check(revived(s, streams.drop_last()), ChildState::Exited)
        }
    }
}

/// A stream that was started on request is started again after each of its
/// first deaths, as often as the bound allows, and after the next one the
/// player gives up: nothing plays, and no station is noted.
pub proof fn law_reconnects_are_bounded<A>(s: AppState<A>, streams: Seq<A>)
    requires
        s.audio is Some,
        s.current is Some,
        s.attempts == 0,
        streams.len() <= MAX_RECONNECT,
    ensures
        revived(s, streams).attempts == streams.len(),
        revived(s, streams).current == s.current,
        revived(s, streams).audio is Some,
        streams.len() < MAX_RECONNECT ==> check_action(
            revived(s, streams),
            ChildState::Exited,
        ) is Relaunch,
        streams.len() == MAX_RECONNECT ==> check_action(
            revived(s, streams),
            ChildState::Exited,
        ) is GiveUp && after_check(revived(s, streams), ChildState::Exited) == (AppState {
            current: None,
            ..silenced(revived(s, streams))
        }),
    decreases streams.len(),
{
    if streams.len() > 0 {
        law_reconnects_are_bounded(s, streams.drop_last());
    }
}

} // verus!
