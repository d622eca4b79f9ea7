//! Clip preview through the text commands of the system media service.
//!
//! One preview runs at a time. The process number is therefore a unique alias
//! inside the command namespace of this process. Playback goes on by itself.
//! The interface asks for the mode and closes the device behind the range.
use vstd::prelude::*;

use crate::text;
use crate::time::Duration;

verus! {

/// Owns one preview in the current process.
#[derive(Debug)]
pub struct PreviewPlayer {
    alias: String,
    open: bool,
    first: u128,
    behind: u128,
}

/// Why a preview cannot start.
#[derive(Clone, Copy, Debug, PartialEq, Eq, Structural)]
pub enum PreviewError {
    /// The platform has no preview.
    Unsupported,
    /// The range has no length.
    EmptyRange,
    /// The path cannot stand inside quotes.
    QuoteInPath,
}

impl PreviewError {
    /// The message for the user.
    pub open spec fn text(self) -> Seq<char> {
        match self {
            PreviewError::Unsupported => "native clip preview is available on Windows only"@,
            PreviewError::EmptyRange => "the preview range is empty"@,
            PreviewError::QuoteInPath =>
                "the clip path contains an unsupported quote character"@,
        }
    }

    /// Returns the message for the user.
    pub fn message(&self) -> (message: &'static str)
        ensures
            message@ == self.text(),
    {
        match self {
            PreviewError::Unsupported => "native clip preview is available on Windows only",
            PreviewError::EmptyRange => "the preview range is empty",
            PreviewError::QuoteInPath =>
                "the clip path contains an unsupported quote character",
        }
    }
}

/// The commands that start a preview, in order.
#[derive(Debug)]
pub struct PreviewScript {
    /// Opens the file.
    pub open: String,
    /// Selects milliseconds.
    pub format: String,
    /// Asks for the length of the media.
    pub length: String,
}

/// The alias of a process.
pub open spec fn alias_of(process: nat) -> Seq<char> {
    "record_preview_"@ + text::decimal(process)
}

/// The command that opens a file.
pub open spec fn open_command(file: Seq<char>, alias: Seq<char>) -> Seq<char> {
    "open \""@ + file + "\" type mpegvideo alias "@ + alias
}

/// The command that selects milliseconds.
pub open spec fn format_command(alias: Seq<char>) -> Seq<char> {
    "set "@ + alias + " time format milliseconds"@
}

/// The millisecond behind a range, which is at least one behind its start.
pub open spec fn end_millisecond(start: nat, end: nat) -> nat {
    let first = start / 1_000_000;
    let last = end / 1_000_000;
    if last < first + 1 {
        first + 1
    } else {
        last
    }
}

/// The command that asks for the length of the media.
pub open spec fn length_command(alias: Seq<char>) -> Seq<char> {
    "status "@ + alias + " length"@
}

/// The media length in an answer of the service. An answer without a positive
/// number says nothing about the length.
pub open spec fn media_length(answer: Seq<char>) -> Option<nat> {
    match text::whole_number(text::trim(answer)) {
        Some(length) => if length > 0 {
            Some(length)
        } else {
            None
        },
        None => None,
    }
}

/// A range of milliseconds inside the media. Its end stays behind its start.
pub open spec fn clamped(first: nat, behind: nat, length: Option<nat>) -> (nat, nat) {
    match length {
        None => (first, behind),
        Some(length) => {
            let end = if behind < length {
                behind
            } else {
                length
            };
            (
                if first < end {
                    first
                } else {
                    (end - 1) as nat
                },
                end,
            )
        },
    }
}

/// The command that plays a range of milliseconds.
pub open spec fn play_command(alias: Seq<char>, range: (nat, nat)) -> Seq<char> {
    "play "@ + alias + " from "@ + text::decimal(range.0) + " to "@ + text::decimal(range.1)
}

impl PreviewPlayer {
    /// The range has a length.
    #[verifier::type_invariant]
    spec fn has_length(self) -> bool {
        self.first < self.behind
    }

    /// The name of the device.
    pub closed spec fn alias(self) -> Seq<char> {
        self.alias@
    }

    /// Whether the device is open.
    pub closed spec fn is_open(self) -> bool {
        self.open
    }

    /// The first millisecond of the range, and the millisecond behind it.
    pub closed spec fn range(self) -> (nat, nat) {
        (self.first as nat, self.behind as nat)
    }

    /// Checks the range of a preview, before its file is looked for.
    pub fn check_range(start: Duration, end: Duration) -> (result: Result<(), PreviewError>)
        ensures
            result == (if start@ >= end@ {
                Err(PreviewError::EmptyRange)
            } else {
                Ok(())
            }),
    {
        if start.as_nanos() >= end.as_nanos() {
            return Err(PreviewError::EmptyRange);
        }
        Ok(())
    }

    /// Prepares a preview of a time range. `file` is the absolute path of the
    /// MP3. A platform without a preview has none.
    pub fn start(file: Option<&str>, start: Duration, end: Duration, process: u32) -> (result:
        Result<(PreviewPlayer, PreviewScript), PreviewError>)
        ensures
            file is None ==> result is Err && result->Err_0 == PreviewError::Unsupported,
            file is Some && start@ >= end@ ==> result is Err && result->Err_0
                == PreviewError::EmptyRange,
            file is Some && start@ < end@ && file->0@.contains('"') ==> result is Err
                && result->Err_0 == PreviewError::QuoteInPath,
            file is Some && start@ < end@ && !file->0@.contains('"') ==> result is Ok,
            result is Ok ==> {
                let (player, script) = result->Ok_0;
                let alias = alias_of(process as nat);
                &&& player.alias() == alias
                &&& !player.is_open()
                &&& script.open@ == open_command(file->0@, alias)
                &&& script.format@ == format_command(alias)
                &&& script.length@ == length_command(alias)
                &&& player.range() == (start@ / 1_000_000, end_millisecond(start@, end@))
            },
    {
        let file = match file {
            None => {
                return Err(PreviewError::Unsupported);
            },
            Some(file) => file,
        };
        match PreviewPlayer::check_range(start, end) {
            Ok(()) => {},
            Err(error) => {
                return Err(error);
            },
        }
        let letters = text::characters(file);
        proof {
            text::lemma_first_position(file@, '"');
        }
        if text::find_first(&letters, '"').is_some() {
            return Err(PreviewError::QuoteInPath);
        }
        let mut alias = String::from_str("record_preview_");
        text::push_decimal(&mut alias, process as u64);
        let mut open = String::from_str("open \"");
        open.append(file);
        open.append("\" type mpegvideo alias ");
        open.append(alias.as_str());
        let mut format = String::from_str("set ");
        format.append(alias.as_str());
        format.append(" time format milliseconds");
        let mut length = String::from_str("status ");
        length.append(alias.as_str());
        length.append(" length");
        let first: u128 = start.as_millis();
        let last: u128 = end.as_millis();
        proof {
            assert(first < u128::MAX);
        }
        let behind: u128 = if last < first + 1 {
            first + 1
        } else {
            last
        };
        Ok(
            (
                PreviewPlayer { alias, open: false, first, behind },
                PreviewScript { open, format, length },
            ),
        )
    }

    /// Returns the command that plays the range, from the answer to the length
    /// question. The range is clamped to the media length.
    pub fn play_command(&self, answer: &str) -> (command: String)
        ensures
            command@ == play_command(
                self.alias(),
                clamped(self.range().0, self.range().1, media_length(answer@)),
            ),
    {
        proof {
            use_type_invariant(self);
        }
        let letters = text::characters(answer);
        let word = text::trimmed(&letters);
        let mut first: u128 = self.first;
        let mut behind: u128 = self.behind;
        match text::read_whole_number(&word) {
            Some(length) => {
                if length > 0 {
                    if length as u128 <= behind {
                        behind = length as u128;
                    }
                    if first >= behind {
                        first = behind - 1;
                    }
                }
            },
            None => {},
        }
        let mut command = String::from_str("play ");
        command.append(self.alias.as_str());
        command.append(" from ");
        text::push_wide_decimal(&mut command, first);
        command.append(" to ");
        text::push_wide_decimal(&mut command, behind);
        proof {
            assert(command@ =~= play_command(
                self.alias(),
                clamped(self.range().0, self.range().1, media_length(answer@)),
            ));
        }
        command
    }

    /// Records that the service opened the file.
    pub fn opened(&mut self)
        ensures
            final(self).is_open(),
            final(self).alias() == old(self).alias(),
            final(self).range() == old(self).range(),
    {
        proof {
            use_type_invariant(&*self);
        }
        self.open = true;
    }

    /// Returns the command that asks for the mode, when the device is open.
    pub fn status_command(&self) -> (command: Option<String>)
        ensures
            command is Some <==> self.is_open(),
            command is Some ==> command->0@ == "status "@ + self.alias() + " mode"@,
    {
        if !self.open {
            return None;
        }
        let mut command = String::from_str("status ");
        command.append(self.alias.as_str());
        command.append(" mode");
        Some(command)
    }

    /// Reports whether the service still plays the selected range, from its
    /// answer to the mode question.
    pub fn is_playing(&self, mode: &str) -> (playing: bool)
        ensures
            playing == (self.is_open() && text::same_ignoring_case(
                text::trim(mode@),
                "playing"@,
            )),
    {
        let letters = text::characters(mode);
        let word = text::trimmed(&letters);
        self.open && text::spells_ignoring_case(&word, "playing")
    }

    /// Closes the player. Returns the commands that stop playback and close the
    /// device.
    pub fn stop(&mut self) -> (commands: Vec<String>)
        ensures
            !final(self).is_open(),
            final(self).alias() == old(self).alias(),
            final(self).range() == old(self).range(),
            !old(self).is_open() ==> commands@.len() == 0,
            old(self).is_open() ==> commands@.len() == 2 && commands@[0]@ == "stop "@
                + old(self).alias() && commands@[1]@ == "close "@ + old(self).alias(),
    {
        let mut commands: Vec<String> = Vec::new();
        if self.open {
            let mut stop = String::from_str("stop ");
            stop.append(self.alias.as_str());
            let mut close = String::from_str("close ");
            close.append(self.alias.as_str());
            commands.push(stop);
            commands.push(close);
            proof {
                use_type_invariant(&*self);
            }
            self.open = false;
        }
        commands
    }
}

/// A preview always plays at least one millisecond, and stays inside the media
/// when the length of the media is known.
pub proof fn law_previews_have_a_length(start: nat, end: nat, length: Option<nat>)
    requires
        length is Some ==> length->0 > 0,
    ensures
        ({
            let range = clamped(start / 1_000_000, end_millisecond(start, end), length);
            &&& range.0 < range.1
            &&& length is Some ==> range.1 <= length->0
            &&& length is None ==> range.0 == start / 1_000_000
        }),
{
}

/// A preview is prepared exactly when there is a file without a quote in its path
/// and a range with a length. Its commands name the file in quotes, and its range
/// is that of the selection in whole milliseconds.
pub proof fn law_previews_play_their_range(
    file: &str,
    start: Duration,
    end: Duration,
    process: u32,
    result: Result<(PreviewPlayer, PreviewScript), PreviewError>,
)
    requires
        call_ensures(PreviewPlayer::start, (Some(file), start, end, process), result),
    ensures
        result is Ok <==> start@ < end@ && !file@.contains('"'),
        result is Ok ==> {
            let (player, script) = result->Ok_0;
            let alias = "record_preview_"@ + text::decimal(process as nat);
            let (first, behind) = player.range();
            &&& script.open@ == "open \""@ + file@ + "\" type mpegvideo alias "@ + alias
            &&& script.format@ == "set "@ + alias + " time format milliseconds"@
            &&& script.length@ == "status "@ + alias + " length"@
            &&& player.alias() == alias && !player.is_open()
            &&& first * 1_000_000 <= start@ < (first + 1) * 1_000_000
            &&& first < behind
            &&& behind * 1_000_000 <= end@ < (behind + 1) * 1_000_000 || (behind == first + 1
                && end@ < behind * 1_000_000)
        },
{
}

/// Without a length of the media the whole range is played. A known length cuts
/// the range off, and a range behind the media plays its last millisecond.
pub proof fn law_play_commands_stay_in_the_media(
    player: PreviewPlayer,
    answer: &str,
    command: String,
    length: nat,
)
    requires
        call_ensures(PreviewPlayer::play_command, (&player, answer), command),
        player.range().0 < player.range().1,
        0 < length <= u32::MAX,
    ensures
        ({
            let (first, behind) = player.range();
            let front = "play "@ + player.alias() + " from "@;
            &&& answer@.len() == 0 ==> command@ == front + text::decimal(first) + " to "@
                + text::decimal(behind)
            &&& answer@ == text::decimal(length) && behind <= length ==> command@ == front
                + text::decimal(first) + " to "@ + text::decimal(behind)
            &&& answer@ == text::decimal(length) && first < length < behind ==> command@ == front
                + text::decimal(first) + " to "@ + text::decimal(length)
            &&& answer@ == text::decimal(length) && length <= first ==> command@ == front
                + text::decimal((length - 1) as nat) + " to "@ + text::decimal(length)
        }),
{
    text::lemma_decimal_is_read(length);
}

/// A preview plays while its device is open and the service says `playing`, in
/// small or capital letters and with any white space around it.
pub proof fn law_previews_play_while_the_service_says_so(
    player: PreviewPlayer,
    mode: &str,
    playing: bool,
    command: Option<String>,
)
    requires
        call_ensures(PreviewPlayer::is_playing, (&player, mode), playing),
        call_ensures(PreviewPlayer::status_command, (&player,), command),
    ensures
        playing ==> player.is_open(),
        player.is_open() && mode@ == "playing"@ ==> playing,
        mode@ == "stopped"@ || mode@.len() == 0 ==> !playing,
        playing ==> text::trim(mode@).len() == 7,
        command is Some <==> player.is_open(),
        command is Some ==> command->0@ == "status "@ + player.alias() + " mode"@,
{
    reveal_strlit("playing");
    reveal_strlit("stopped");
    let word = "playing"@;
    assert(!text::is_white_space(word.first()) && !text::is_white_space(word.last()));
    assert(text::trim(word) == word);
    let other = "stopped"@;
    assert(!text::is_white_space(other.first()) && !text::is_white_space(other.last()));
    assert(text::trim(other) == other);
    assert(text::upper(word)[0] == 'P' && text::upper(other)[0] == 'S');
    assert(text::upper(text::trim(mode@)).len() == text::trim(mode@).len());
    assert(text::upper(word).len() == 7);
}

/// An open device is stopped and closed, in this order, and a closed one is left
/// alone.
pub proof fn law_stopped_players_are_closed(player: &mut PreviewPlayer, commands: Vec<String>)
    requires
        call_ensures(PreviewPlayer::stop, (player,), commands),
    ensures
        !final(player).is_open(),
        final(player).range() == old(player).range(),
        old(player).is_open() ==> commands@.len() == 2 && commands@[0]@ == "stop "@
            + old(player).alias() && commands@[1]@ == "close "@ + old(player).alias(),
        !old(player).is_open() ==> commands@.len() == 0,
{
}

/// The service opens the device of a player, and keeps its name and its range.
pub proof fn law_opened_players_keep_their_range(player: &mut PreviewPlayer)
    requires
        call_ensures(PreviewPlayer::opened, (player,), ()),
    ensures
        final(player).is_open(),
        final(player).alias() == old(player).alias(),
        final(player).range() == old(player).range(),
{
}

/// Every reason against a preview has its own message, and a range is checked
/// before its file.
pub proof fn law_preview_problems_are_told(
    error: PreviewError,
    message: &'static str,
    start: Duration,
    end: Duration,
    result: Result<(), PreviewError>,
)
    requires
        call_ensures(PreviewError::message, (&error,), message),
        call_ensures(PreviewPlayer::check_range, (start, end), result),
    ensures
        error is Unsupported ==> message@ == "native clip preview is available on Windows only"@,
        error is EmptyRange ==> message@ == "the preview range is empty"@,
        error is QuoteInPath ==> message@ == "the clip path contains an unsupported quote character"@,
        result is Ok <==> start@ < end@,
        result is Err ==> result->Err_0 is EmptyRange,
{
}

} // verus!
