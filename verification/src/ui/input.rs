//! Keyboard decisions: which commands a key press asks of the player screen
//! and of the file browser, and where the browser goes after a selection.

use vstd::prelude::*;
use crate::midi::mode_detect::MidiMode;
use crate::ui::file_browser::BrowseTarget;
use crate::util::chars::str_chars;

verus! {

/// Named (non-character) keys the interface reacts to.
#[derive(Debug, Clone, Copy, PartialEq, Eq)]
pub enum NamedKey {
    Escape,
    Space,
    ArrowLeft,
    ArrowRight,
    ArrowUp,
    ArrowDown,
    Tab,
    Backspace,
    Home,
    Enter,
    Other,
}

/// What a key press asks of the player screen.
#[derive(Debug, Clone, Copy, PartialEq, Eq)]
pub enum PlayerCommand {
    Quit,
    Stop,
    ToggleMute,
    TogglePianoRoll,
    ToggleOrientation,
    ToggleTrackView,
    VolumeUp,
    VolumeDown,
    ZoomOut,
    ZoomIn,
    SetMode(MidiMode),
    OpenMidi,
    OpenSf2,
    ResetSf2,
    ToggleHelp,
    TogglePlay,
    SeekBackward,
    SeekForward,
    CursorUp,
    CursorDown,
    CycleFocus,
}

/// What a key press asks of the file browser.
#[derive(Debug, Clone, Copy, PartialEq, Eq)]
pub enum BrowserCommand {
    Quit,
    /// Leave the browser for the player (both files are loaded).
    BackToPlayer,
    GoDrives,
    CursorUp,
    CursorDown,
    GoParent,
    GoHome,
    Enter,
}

/// The single character of `s`, if it has exactly one.
pub open spec fn single(s: Seq<char>) -> Option<char> {
    if s.len() == 1 {
        Some(s[0])
    } else {
        None
    }
}

/// Whether the typed text is exactly `c`.
pub open spec fn typed(ch: Option<Seq<char>>, c: char) -> bool {
    ch matches Some(s) && single(s) == Some(c)
}

/// Player command bound to a typed character.
pub open spec fn char_command(c: char) -> Option<PlayerCommand> {
    if c == 'q' || c == 'Q' {
        Some(PlayerCommand::Quit)
    } else if c == 's' || c == 'S' {
        Some(PlayerCommand::Stop)
    } else if c == 'm' || c == 'M' {
        Some(PlayerCommand::ToggleMute)
    } else if c == 'p' || c == 'P' {
        Some(PlayerCommand::TogglePianoRoll)
    } else if c == 'v' || c == 'V' {
        Some(PlayerCommand::ToggleOrientation)
    } else if c == 'e' || c == 'E' {
        Some(PlayerCommand::ToggleTrackView)
    } else if c == '+' || c == '=' {
        Some(PlayerCommand::VolumeUp)
    } else if c == '-' {
        Some(PlayerCommand::VolumeDown)
    } else if c == '[' {
        Some(PlayerCommand::ZoomOut)
    } else if c == ']' {
        Some(PlayerCommand::ZoomIn)
    } else if c == '1' {
        Some(PlayerCommand::SetMode(MidiMode::GM))
    } else if c == '2' {
        Some(PlayerCommand::SetMode(MidiMode::GS))
    } else if c == '3' {
        Some(PlayerCommand::SetMode(MidiMode::XG))
    } else if c == '4' {
        Some(PlayerCommand::SetMode(MidiMode::GM2))
    } else if c == 'o' || c == 'O' {
        Some(PlayerCommand::OpenMidi)
    } else if c == 'f' || c == 'F' {
        Some(PlayerCommand::OpenSf2)
    } else if c == 'd' || c == 'D' {
        Some(PlayerCommand::ResetSf2)
    } else if c == '?' {
        Some(PlayerCommand::ToggleHelp)
    } else {
        None
    }
}

/// Player command bound to a named key.
pub open spec fn named_command(k: NamedKey) -> Option<PlayerCommand> {
    match k {
        NamedKey::Escape => Some(PlayerCommand::Quit),
        NamedKey::Space => Some(PlayerCommand::TogglePlay),
        NamedKey::ArrowLeft => Some(PlayerCommand::SeekBackward),
        NamedKey::ArrowRight => Some(PlayerCommand::SeekForward),
        NamedKey::ArrowUp => Some(PlayerCommand::CursorUp),
        NamedKey::ArrowDown => Some(PlayerCommand::CursorDown),
        NamedKey::Tab => Some(PlayerCommand::CycleFocus),
        _ => None,
    }
}

/// An optional command as a list of at most one.
pub open spec fn opt_seq<T>(o: Option<T>) -> Seq<T> {
    match o {
        Some(c) => seq![c],
        None => Seq::empty(),
    }
}

/// Commands of one key press on the player screen, in the order they run.
/// The key's text `ch` comes first, then its name. With the help overlay
/// shown only `?` and Escape (closing it) and Ctrl+C (quitting) count.
/// Ctrl+C, `q` and `Q` quit at once.
pub open spec fn player_commands(
    ch: Option<Seq<char>>,
    named: Option<NamedKey>,
    ctrl: bool,
    show_help: bool,
) -> Seq<PlayerCommand> {
    if show_help {
        if typed(ch, 'c') && ctrl {
            seq![PlayerCommand::Quit]
        } else {
            (if typed(ch, '?') {
                seq![PlayerCommand::ToggleHelp]
            } else {
                Seq::empty()
            }) + (if named == Some(NamedKey::Escape) {
                seq![PlayerCommand::ToggleHelp]
            } else {
                Seq::empty()
            })
        }
    } else if typed(ch, 'c') && ctrl {
        seq![PlayerCommand::Quit]
    } else if typed(ch, 'q') || typed(ch, 'Q') {
        seq![PlayerCommand::Quit]
    } else {
        let from_char = match ch {
            Some(s) => match single(s) {
                Some(c) => opt_seq(char_command(c)),
                None => Seq::empty(),
            },
            None => Seq::empty(),
        };
        let from_name = match named {
            Some(k) => opt_seq(named_command(k)),
            None => Seq::empty(),
        };
        from_char + from_name
    }
}

/// Commands of one key press in the file browser, in the order they run.
pub open spec fn browser_commands(
    ch: Option<Seq<char>>,
    named: Option<NamedKey>,
    ctrl: bool,
    both_loaded: bool,
) -> Seq<BrowserCommand> {
    if typed(ch, 'c') && ctrl {
        seq![BrowserCommand::Quit]
    } else {
        let from_char = if typed(ch, '/') || typed(ch, '\\') {
            seq![BrowserCommand::GoDrives]
        } else {
            Seq::empty()
        };
        let from_name = match named {
            Some(NamedKey::Escape) => if both_loaded {
                seq![BrowserCommand::BackToPlayer]
            } else {
                seq![BrowserCommand::Quit]
            },
            Some(NamedKey::ArrowUp) => seq![BrowserCommand::CursorUp],
            Some(NamedKey::ArrowDown) => seq![BrowserCommand::CursorDown],
            Some(NamedKey::Backspace) => seq![BrowserCommand::GoParent],
            Some(NamedKey::Home) => seq![BrowserCommand::GoHome],
            Some(NamedKey::Enter) => seq![BrowserCommand::Enter],
            _ => Seq::empty(),
        };
        from_char + from_name
    }
}

/// The one character of `s`, if `s` has exactly one.
fn single_char(s: &str) -> (r: Option<char>)
    ensures
        r == single(s@),
{
    let cs = str_chars(s);
    if cs.len() == 1 {
        Some(cs[0])
    } else {
        None
    }
}

/// Command bound to one typed character.
fn char_command_of(c: char) -> (r: Option<PlayerCommand>)
    ensures
        r == char_command(c),
{
    match c {
        'q' | 'Q' => Some(PlayerCommand::Quit),
        's' | 'S' => Some(PlayerCommand::Stop),
        'm' | 'M' => Some(PlayerCommand::ToggleMute),
        'p' | 'P' => Some(PlayerCommand::TogglePianoRoll),
        'v' | 'V' => Some(PlayerCommand::ToggleOrientation),
        'e' | 'E' => Some(PlayerCommand::ToggleTrackView),
        '+' | '=' => Some(PlayerCommand::VolumeUp),
        '-' => Some(PlayerCommand::VolumeDown),
        '[' => Some(PlayerCommand::ZoomOut),
        ']' => Some(PlayerCommand::ZoomIn),
        '1' => Some(PlayerCommand::SetMode(MidiMode::GM)),
        '2' => Some(PlayerCommand::SetMode(MidiMode::GS)),
        '3' => Some(PlayerCommand::SetMode(MidiMode::XG)),
        '4' => Some(PlayerCommand::SetMode(MidiMode::GM2)),
        'o' | 'O' => Some(PlayerCommand::OpenMidi),
        'f' | 'F' => Some(PlayerCommand::OpenSf2),
        'd' | 'D' => Some(PlayerCommand::ResetSf2),
        '?' => Some(PlayerCommand::ToggleHelp),
        _ => None,
    }
}

/// Commands of a key press on the player screen: `ch` is the key's text,
/// `named` its name, `ctrl` whether Control is held.
pub fn player_key_commands(ch: Option<&str>, named: Option<NamedKey>, ctrl: bool, show_help: bool) -> (r:
    Vec<PlayerCommand>)
    ensures
        r@ == player_commands(
            match ch {
                Some(s) => Some(s@),
                None => None,
            },
            named,
            ctrl,
            show_help,
        ),
{
    let ghost chs: Option<Seq<char>> = match ch {
        Some(s) => Some(s@),
        None => None,
    };
    let c: Option<char> = match ch {
        Some(s) => single_char(s),
        None => None,
    };
    assert(c == (match chs {
        Some(s) => single(s),
        None => None,
    }));
    let mut out: Vec<PlayerCommand> = Vec::new();
    if show_help {
        if c == Some('c') && ctrl {
            out.push(PlayerCommand::Quit);
            assert(out@ =~= player_commands(chs, named, ctrl, show_help));
            return out;
        }
        if c == Some('?') {
            out.push(PlayerCommand::ToggleHelp);
        }
        match named {
            Some(NamedKey::Escape) => out.push(PlayerCommand::ToggleHelp),
            _ => {},
        }
        assert(out@ =~= player_commands(chs, named, ctrl, show_help));
        return out;
    }
    if (c == Some('c') && ctrl) || c == Some('q') || c == Some('Q') {
        out.push(PlayerCommand::Quit);
        assert(out@ =~= player_commands(chs, named, ctrl, show_help));
        return out;
    }
    match c {
        Some(k) => match char_command_of(k) {
            Some(cmd) => out.push(cmd),
            None => {},
        },
        None => {},
    }
    let from_name: Option<PlayerCommand> = match named {
        Some(NamedKey::Escape) => Some(PlayerCommand::Quit),
        Some(NamedKey::Space) => Some(PlayerCommand::TogglePlay),
        Some(NamedKey::ArrowLeft) => Some(PlayerCommand::SeekBackward),
        Some(NamedKey::ArrowRight) => Some(PlayerCommand::SeekForward),
        Some(NamedKey::ArrowUp) => Some(PlayerCommand::CursorUp),
        Some(NamedKey::ArrowDown) => Some(PlayerCommand::CursorDown),
        Some(NamedKey::Tab) => Some(PlayerCommand::CycleFocus),
        _ => None,
    };
    match from_name {
        Some(cmd) => out.push(cmd),
        None => {},
    }
    assert(out@ =~= player_commands(chs, named, ctrl, show_help));
    out
}

/// Commands of a key press in the file browser; `both_loaded` tells whether
/// a MIDI file and a soundfont are both loaded (Escape then returns to the
/// player instead of quitting).
pub fn browser_key_commands(ch: Option<&str>, named: Option<NamedKey>, ctrl: bool, both_loaded: bool) -> (r:
    Vec<BrowserCommand>)
    ensures
        r@ == browser_commands(
            match ch {
                Some(s) => Some(s@),
                None => None,
            },
            named,
            ctrl,
            both_loaded,
        ),
{
    let ghost chs: Option<Seq<char>> = match ch {
        Some(s) => Some(s@),
        None => None,
    };
    let c: Option<char> = match ch {
        Some(s) => single_char(s),
        None => None,
    };
    assert(c == (match chs {
        Some(s) => single(s),
        None => None,
    }));
    let mut out: Vec<BrowserCommand> = Vec::new();
    if c == Some('c') && ctrl {
        out.push(BrowserCommand::Quit);
        assert(out@ =~= browser_commands(chs, named, ctrl, both_loaded));
        return out;
    }
    if c == Some('/') || c == Some('\\') {
        out.push(BrowserCommand::GoDrives);
    }
    match named {
        Some(NamedKey::Escape) => {
            if both_loaded {
                out.push(BrowserCommand::BackToPlayer);
            } else {
                out.push(BrowserCommand::Quit);
            }
        },
        Some(NamedKey::ArrowUp) => out.push(BrowserCommand::CursorUp),
        Some(NamedKey::ArrowDown) => out.push(BrowserCommand::CursorDown),
        Some(NamedKey::Backspace) => out.push(BrowserCommand::GoParent),
        Some(NamedKey::Home) => out.push(BrowserCommand::GoHome),
        Some(NamedKey::Enter) => out.push(BrowserCommand::Enter),
        _ => {},
    }
    assert(out@ =~= browser_commands(chs, named, ctrl, both_loaded));
    out
}

/// Where the interface goes after the file browser loaded a selected file.
#[derive(Debug, Clone, Copy, PartialEq, Eq)]
pub enum AfterLoad {
    /// Loading failed: stay in the browser.
    Stay,
    /// Ask for the other kind of file, which is still missing.
    Browse(BrowseTarget),
    /// Both files are there: close the browser and play.
    Play,
}

/// Next step after loading a selected `target` file: stay on failure, ask
/// for the missing other file, or play. `has_midi` and `has_sf2` are taken
/// after the load.
pub fn after_load(target: BrowseTarget, load_ok: bool, has_midi: bool, has_sf2: bool) -> (r:
    AfterLoad)
    ensures
        r == (if !load_ok {
            AfterLoad::Stay
        } else {
            match target {
                BrowseTarget::Sf2 => if !has_midi {
                    AfterLoad::Browse(BrowseTarget::Midi)
                } else {
                    AfterLoad::Play
                },
                BrowseTarget::Midi => if !has_sf2 {
                    AfterLoad::Browse(BrowseTarget::Sf2)
                } else {
                    AfterLoad::Play
                },
            }
        }),
{
    if !load_ok {
        AfterLoad::Stay
    } else {
        match target {
            BrowseTarget::Sf2 => if !has_midi {
                AfterLoad::Browse(BrowseTarget::Midi)
            } else {
                AfterLoad::Play
            },
            BrowseTarget::Midi => if !has_sf2 {
                AfterLoad::Browse(BrowseTarget::Sf2)
            } else {
                AfterLoad::Play
            },
        }
    }
}

} // verus!
