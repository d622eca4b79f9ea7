//! The lines of text that the interface shows.
//!
//! A line is a list of pieces. A piece has a text, a tone, and a weight. The
//! terminal owner turns a tone into a color and places the lines.
use vstd::prelude::*;

use crate::audio;
use crate::audio::SavedFile;
use crate::binary64;
use crate::clip;
use crate::clip::SelectionHandle;
use crate::labels;
use crate::text;
use crate::tui;
use crate::tui::video;
use crate::tui::video::VideoApp;
use crate::tui::{App, CaptureState, ClipReview};

verus! {

/// The color class of a piece of text.
#[derive(Clone, Copy, Debug, PartialEq, Eq, Structural)]
pub enum Tone {
    /// The color of the terminal.
    Plain,
    /// Secondary text.
    Muted,
    /// Bright text.
    White,
    /// The left channel.
    Cyan,
    /// The right channel, and saved files.
    Green,
    /// Recording, and errors.
    Red,
    /// A state that passes.
    Amber,
    /// Views and the editor.
    Purple,
    /// The selected row.
    Selected,
}

/// One piece of a line.
#[derive(Debug)]
pub struct Piece {
    /// What it says.
    pub text: String,
    /// Its color class.
    pub tone: Tone,
    /// Whether it is bold.
    pub bold: bool,
}

/// The mathematical value of a [`Piece`].
pub struct PieceView {
    pub text: Seq<char>,
    pub tone: Tone,
    pub bold: bool,
}

impl View for Piece {
    type V = PieceView;

    open spec fn view(&self) -> PieceView {
        PieceView { text: self.text@, tone: self.tone, bold: self.bold }
    }
}

/// The values of the pieces of a line.
pub open spec fn line_view(line: Seq<Piece>) -> Seq<PieceView> {
    Seq::new(line.len(), |i: int| line[i]@)
}

/// The values of lines.
pub open spec fn lines_view(lines: Seq<Vec<Piece>>) -> Seq<Seq<PieceView>> {
    Seq::new(lines.len(), |i: int| line_view(lines[i]@))
}

/// A piece of regular weight.
pub open spec fn regular(words: Seq<char>, tone: Tone) -> PieceView {
    PieceView { text: words, tone, bold: false }
}

/// A bold piece.
pub open spec fn strong(words: Seq<char>, tone: Tone) -> PieceView {
    PieceView { text: words, tone, bold: true }
}

/// Appends a piece of regular weight.
fn push_regular(line: &mut Vec<Piece>, words: &str, tone: Tone)
    ensures
        line_view(final(line)@) == line_view(old(line)@).push(regular(words@, tone)),
{
    line.push(Piece { text: String::from_str(words), tone, bold: false });
    proof {
        assert(line_view(line@) =~= line_view(old(line)@).push(regular(words@, tone)));
    }
}

/// Appends a bold piece.
fn push_strong(line: &mut Vec<Piece>, words: &str, tone: Tone)
    ensures
        line_view(final(line)@) == line_view(old(line)@).push(strong(words@, tone)),
{
    line.push(Piece { text: String::from_str(words), tone, bold: true });
    proof {
        assert(line_view(line@) =~= line_view(old(line)@).push(strong(words@, tone)));
    }
}

/// Returns an empty line.
fn new_line() -> (line: Vec<Piece>)
    ensures
        line_view(line@) == Seq::<PieceView>::empty(),
        line@.len() == 0,
{
    let line: Vec<Piece> = Vec::new();
    proof {
        assert(line_view(line@) =~= Seq::<PieceView>::empty());
    }
    line
}

/// Appends a line.
fn push_line(lines: &mut Vec<Vec<Piece>>, line: Vec<Piece>)
    ensures
        lines_view(final(lines)@) == lines_view(old(lines)@).push(line_view(line@)),
{
    lines.push(line);
    proof {
        assert(lines_view(lines@) =~= lines_view(old(lines)@).push(line_view(line@)));
    }
}

/// Returns no lines.
fn new_lines() -> (lines: Vec<Vec<Piece>>)
    ensures
        lines_view(lines@) == Seq::<Seq<PieceView>>::empty(),
{
    let lines: Vec<Vec<Piece>> = Vec::new();
    proof {
        assert(lines_view(lines@) =~= Seq::<Seq<PieceView>>::empty());
    }
    lines
}

/// The state word of the recorder header.
pub open spec fn state_piece(state: CaptureState) -> PieceView {
    match state {
        CaptureState::Starting => strong("● STARTING"@, Tone::Amber),
        CaptureState::Recording => strong("● RECORDING"@, Tone::Red),
        CaptureState::Paused => strong("Ⅱ PAUSED"@, Tone::Amber),
        CaptureState::Previewing => strong("▶ PREVIEW"@, Tone::Green),
        CaptureState::Finalizing => strong("◌ FINALIZING"@, Tone::Amber),
    }
}

/// Appends the state word of the recorder header.
fn push_state(line: &mut Vec<Piece>, state: CaptureState)
    ensures
        line_view(final(line)@) == line_view(old(line)@).push(state_piece(state)),
{
    match state {
        CaptureState::Starting => push_strong(line, "● STARTING", Tone::Amber),
        CaptureState::Recording => push_strong(line, "● RECORDING", Tone::Red),
        CaptureState::Paused => push_strong(line, "Ⅱ PAUSED", Tone::Amber),
        CaptureState::Previewing => push_strong(line, "▶ PREVIEW", Tone::Green),
        CaptureState::Finalizing => push_strong(line, "◌ FINALIZING", Tone::Amber),
    }
}

/// The bit rate and the sample rate of a recording.
pub open spec fn format_text(bitrate: nat, sample_rate: nat) -> Seq<char> {
    text::decimal(bitrate / 1_000) + " kbps · "@ + text::decimal(sample_rate / 1_000)
        + " kHz · stereo"@
}

/// Returns the bit rate and the sample rate of a recording.
pub fn format_label(bitrate: u32, sample_rate: u32) -> (label: String)
    ensures
        label@ == format_text(bitrate as nat, sample_rate as nat),
{
    let mut label = String::new();
    text::push_decimal(&mut label, (bitrate / 1_000) as u64);
    label.append(" kbps · ");
    text::push_decimal(&mut label, (sample_rate / 1_000) as u64);
    label.append(" kHz · stereo");
    proof {
        assert(label@ =~= format_text(bitrate as nat, sample_rate as nat));
    }
    label
}

/// The title of the header: the program and what it captures.
pub open spec fn title(screen: bool) -> Seq<PieceView> {
    seq![
        strong(" record "@, Tone::Red),
        regular(
            if screen {
                "SCREEN CAPTURE"@
            } else {
                "SYSTEM AUDIO"@
            },
            Tone::Muted,
        ),
    ]
}

/// Writes the title of the header.
pub fn title_line(screen: bool) -> (line: Vec<Piece>)
    ensures
        line_view(line@) == title(screen),
{
    let mut line = new_line();
    push_strong(&mut line, " record ", Tone::Red);
    if screen {
        push_regular(&mut line, "SCREEN CAPTURE", Tone::Muted);
    } else {
        push_regular(&mut line, "SYSTEM AUDIO", Tone::Muted);
    }
    proof {
        assert(line_view(line@) =~= title(screen));
    }
    line
}

/// The clock of the encoded frames.
pub open spec fn elapsed_text(app: tui::AppView) -> Seq<char> {
    labels::clock(
        binary64::frame_nanoseconds(app.encoded_frames, app.sample_rate) / 1_000_000_000,
    )
}

/// The header line of the recorder.
pub open spec fn header(app: tui::AppView) -> Seq<PieceView> {
    seq![
        state_piece(app.state),
        regular("   "@ + elapsed_text(app) + "   "@, Tone::Plain),
        regular(format_text(app.bitrate, app.sample_rate), Tone::Muted),
        regular("   "@, Tone::Plain),
        strong(app.view.name(), Tone::Purple),
    ]
}

/// Writes capture state, elapsed time, format, and view mode.
pub fn header_line(app: &App) -> (line: Vec<Piece>)
    requires
        binary64::frames_have_length(app@.encoded_frames, app@.sample_rate),
    ensures
        line_view(line@) == header(app@),
{
    let mut line = new_line();
    push_state(&mut line, app.state);
    let mut clock = String::from_str("   ");
    clock.append(app.elapsed().as_str());
    clock.append("   ");
    push_regular(&mut line, clock.as_str(), Tone::Plain);
    push_regular(&mut line, format_label(app.bitrate, app.sample_rate).as_str(), Tone::Muted);
    push_regular(&mut line, "   ", Tone::Plain);
    push_strong(&mut line, app.view.label(), Tone::Purple);
    proof {
        assert(line_view(line@) =~= header(app@));
    }
    line
}

/// The first row of the window around the selected file.
pub open spec fn window_start(selected: nat, count: nat, rows: nat) -> nat {
    let last = if count < rows {
        0
    } else {
        (count - rows) as nat
    };
    let wanted = if selected + 1 < rows {
        0
    } else {
        (selected + 1 - rows) as nat
    };
    if wanted < last {
        wanted
    } else {
        last
    }
}

/// Returns the first row of the window around the selected file.
pub fn saves_window_start(selected: Option<usize>, count: usize, rows: usize) -> (start: usize)
    ensures
        start == window_start(
            match selected {
                Some(index) => index as nat,
                None => 0,
            },
            count as nat,
            rows as nat,
        ),
        start <= count,
{
    let index: usize = match selected {
        Some(index) => index,
        None => 0,
    };
    let last: usize = if count < rows {
        0
    } else {
        count - rows
    };
    let wanted: usize = if rows == 0 {
        if index == usize::MAX {
            return last;
        }
        index + 1
    } else if index < rows - 1 {
        0
    } else {
        index - (rows - 1)
    };
    if wanted < last {
        wanted
    } else {
        last
    }
}

/// The window shows the selected file, and it stays inside the save list.
pub proof fn law_window_shows_the_selected_file(selected: nat, count: nat, rows: nat)
    requires
        selected < count,
        rows > 0,
    ensures
        window_start(selected, count, rows) <= selected,
        selected < window_start(selected, count, rows) + rows,
        window_start(selected, count, rows) + rows <= count || window_start(selected, count, rows)
            == 0,
{
}

/// The row of one finalized file.
pub open spec fn save_row(file: audio::SavedView, selected: bool) -> Seq<PieceView> {
    let tone = if selected {
        Tone::Selected
    } else {
        Tone::Muted
    };
    let marker = if selected {
        ">"@
    } else {
        " "@
    };
    seq![
        PieceView {
            text: " "@ + marker + " ✓ "@ + labels::left_aligned(tui::kind_name(file.kind), 4)
                + " "@,
            tone,
            bold: selected,
        },
        PieceView { text: tui::shown_name(file.path), tone, bold: selected },
        regular(
            "   "@ + labels::seconds_text(
                binary64::frame_nanoseconds(file.frames, file.sample_rate),
                1,
            ) + "s"@,
            Tone::Muted,
        ),
    ]
}

/// Writes the row of one finalized file.
fn save_line(file: &SavedFile, selected: bool) -> (line: Vec<Piece>)
    requires
        binary64::frames_have_length(file.frames as nat, file.sample_rate as nat),
    ensures
        line_view(line@) == save_row(file@, selected),
{
    let tone = if selected {
        Tone::Selected
    } else {
        Tone::Muted
    };
    let mut line = new_line();
    let mut front = String::from_str(" ");
    if selected {
        front.append(">");
    } else {
        front.append(" ");
    }
    front.append(" ✓ ");
    front.append(labels::align_left(tui::kind_label(file.kind), 4).as_str());
    front.append(" ");
    line.push(Piece { text: front, tone, bold: selected });
    line.push(Piece { text: tui::shown_file_name(&file.path), tone, bold: selected });
    let mut length = String::from_str("   ");
    labels::push_seconds(&mut length, &file.duration(), 1);
    length.append("s");
    line.push(Piece { text: length, tone: Tone::Muted, bold: false });
    proof {
        assert(line_view(line@) =~= save_row(file@, selected));
    }
    line
}

/// The rows of the saves panel.
pub open spec fn save_rows(app: tui::AppView, rows: nat) -> Seq<Seq<PieceView>> {
    if app.saved.len() == 0 {
        seq![seq![regular(" No files are finalized yet"@, Tone::Muted)]]
    } else {
        let start = window_start(
            match app.selected {
                Some(index) => index,
                None => 0,
            },
            app.saved.len(),
            rows,
        );
        let count = if app.saved.len() - start < rows {
            (app.saved.len() - start) as nat
        } else {
            rows
        };
        Seq::new(
            count,
            |i: int| save_row(app.saved[start + i], app.selected == Some((start + i) as nat)),
        )
    }
}

/// Writes the rows of the saves panel: a window around the selected file.
pub fn saves_lines(app: &App, rows: usize) -> (lines: Vec<Vec<Piece>>)
    requires
        rows > 0,
        forall|i: int|
            0 <= i < app@.saved.len() ==> binary64::frames_have_length(
                (#[trigger] app@.saved[i]).frames,
                app@.saved[i].sample_rate,
            ),
    ensures
        lines_view(lines@) == save_rows(app@, rows as nat),
{
    let mut lines = new_lines();
    let total: usize = app.saved.len();
    if total == 0 {
        let mut line = new_line();
        push_regular(&mut line, " No files are finalized yet", Tone::Muted);
        push_line(&mut lines, line);
        proof {
            assert(line_view(line@) =~= seq![
                regular(" No files are finalized yet"@, Tone::Muted),
            ]);
            assert(lines_view(lines@) =~= save_rows(app@, rows as nat));
        }
        return lines;
    }
    let start: usize = saves_window_start(app.selected_save, total, rows);
    let count: usize = if total - start < rows {
        total - start
    } else {
        rows
    };
    let mut row: usize = 0;
    while row < count
        invariant
            row <= count,
            start + count <= total,
            total == app.saved@.len(),
            lines_view(lines@).len() == row,
            forall|i: int|
                0 <= i < row ==> #[trigger] lines_view(lines@)[i] == save_row(
                    app@.saved[start + i],
                    app@.selected == Some((start + i) as nat),
                ),
            forall|i: int|
                0 <= i < app@.saved.len() ==> binary64::frames_have_length(
                    (#[trigger] app@.saved[i]).frames,
                    app@.saved[i].sample_rate,
                ),
        decreases count - row,
    {
        let index: usize = start + row;
        let selected = match app.selected_save {
            Some(chosen) => chosen == index,
            None => false,
        };
        proof {
            assert(app@.saved[index as int] == app.saved@[index as int]@);
        }
        let line = save_line(&app.saved[index], selected);
        push_line(&mut lines, line);
        row += 1;
    }
    proof {
        assert(lines_view(lines@) =~= save_rows(app@, rows as nat));
    }
    lines
}

/// The title of the saves panel.
pub open spec fn saves_title(notice: Option<Seq<char>>) -> Seq<char> {
    match notice {
        Some(notice) => " SAVES · "@ + notice + " "@,
        None => " SAVES · SESSION "@,
    }
}

/// Writes the title of the saves panel.
pub fn saves_title_text(app: &App) -> (title: String)
    ensures
        title@ == saves_title(app@.notice),
{
    match &app.notice {
        Some(notice) => {
            let mut title = String::from_str(" SAVES · ");
            title.append(notice.as_str());
            title.append(" ");
            title
        },
        None => String::from_str(" SAVES · SESSION "),
    }
}

/// The controls of the recorder. A narrow terminal gets a shorter stop label.
pub open spec fn controls(clips_enabled: bool, narrow: bool) -> Seq<PieceView> {
    let front = seq![
        strong(" Ctrl+C / S "@, Tone::Red),
        regular(
            if narrow {
                "stop   "@
            } else {
                "save & stop   "@
            },
            Tone::Muted,
        ),
        strong(" Space "@, Tone::Amber),
        regular("pause   "@, Tone::Muted),
        strong(" W "@, Tone::Purple),
        regular("view   "@, Tone::Muted),
    ];
    let clips = if clips_enabled {
        seq![
            strong(" C "@, Tone::Green),
            regular("clip   "@, Tone::Muted),
            strong(" E "@, Tone::Purple),
            regular("edit   "@, Tone::Muted),
        ]
    } else {
        Seq::empty()
    };
    front + clips + seq![strong(" ? "@, Tone::Cyan), regular("help"@, Tone::Muted)]
}

/// Writes the controls of the recorder.
fn controls_line(clips_enabled: bool, narrow: bool) -> (line: Vec<Piece>)
    ensures
        line_view(line@) == controls(clips_enabled, narrow),
{
    let mut line = new_line();
    push_strong(&mut line, " Ctrl+C / S ", Tone::Red);
    if narrow {
        push_regular(&mut line, "stop   ", Tone::Muted);
    } else {
        push_regular(&mut line, "save & stop   ", Tone::Muted);
    }
    push_strong(&mut line, " Space ", Tone::Amber);
    push_regular(&mut line, "pause   ", Tone::Muted);
    push_strong(&mut line, " W ", Tone::Purple);
    push_regular(&mut line, "view   ", Tone::Muted);
    if clips_enabled {
        push_strong(&mut line, " C ", Tone::Green);
        push_regular(&mut line, "clip   ", Tone::Muted);
        push_strong(&mut line, " E ", Tone::Purple);
        push_regular(&mut line, "edit   ", Tone::Muted);
    }
    push_strong(&mut line, " ? ", Tone::Cyan);
    push_regular(&mut line, "help", Tone::Muted);
    proof {
        assert(line_view(line@) =~= controls(clips_enabled, narrow));
    }
    line
}

/// The smallest terminal width with long labels.
pub const WIDE_TERMINAL: u16 = 96;

/// The columns that remain of a width.
pub open spec fn columns(width: nat, taken: nat) -> nat {
    if width < taken {
        0
    } else {
        (width - taken) as nat
    }
}

/// A path within a number of columns.
pub open spec fn path_in(place: crate::path::PathView, room: nat) -> Seq<char> {
    if room == 0 {
        Seq::empty()
    } else {
        labels::compacted(place.text(), room)
    }
}

/// The footer of the recorder: the controls and the compact output path.
pub open spec fn footer(app: tui::AppView, width: nat) -> Seq<Seq<PieceView>> {
    seq![
        controls(app.clips_enabled, width < WIDE_TERMINAL),
        seq![
            regular(
                if app.clips_enabled {
                    " SESSION  "@
                } else {
                    " OUTPUT   "@
                },
                Tone::Muted,
            ),
            regular(path_in(app.output, columns(width, 4)), Tone::White),
        ],
    ]
}

/// Writes the footer of the recorder.
pub fn footer_lines(app: &App, width: u16) -> (lines: Vec<Vec<Piece>>)
    ensures
        lines_view(lines@) == footer(app@, width as nat),
{
    let room: usize = if width < 4 {
        0
    } else {
        (width - 4) as usize
    };
    let output = labels::compact_path(&app.output, room);
    let first = controls_line(app.clips_enabled, width < WIDE_TERMINAL);
    let mut second = new_line();
    if app.clips_enabled {
        push_regular(&mut second, " SESSION  ", Tone::Muted);
    } else {
        push_regular(&mut second, " OUTPUT   ", Tone::Muted);
    }
    push_regular(&mut second, output.as_str(), Tone::White);
    let mut lines = new_lines();
    let ghost path_line = line_view(second@);
    push_line(&mut lines, first);
    push_line(&mut lines, second);
    proof {
        assert(path_line =~= footer(app@, width as nat)[1]);
        assert(lines_view(lines@) =~= footer(app@, width as nat));
    }
    lines
}

/// One aligned key row of the help overlay.
pub open spec fn help_row(key: Seq<char>, description: Seq<char>) -> Seq<PieceView> {
    seq![
        strong(labels::left_aligned(key, 24), Tone::Cyan),
        regular(description, Tone::Plain),
    ]
}

/// A row of plain text.
pub open spec fn plain_row(words: Seq<char>, tone: Tone) -> Seq<PieceView> {
    seq![regular(words, tone)]
}

/// Writes one aligned key row of the help overlay.
fn help_line(key: &str, description: &str) -> (line: Vec<Piece>)
    ensures
        line_view(line@) == help_row(key@, description@),
{
    let mut line = new_line();
    push_strong(&mut line, labels::align_left(key, 24).as_str(), Tone::Cyan);
    push_regular(&mut line, description, Tone::Plain);
    proof {
        assert(line_view(line@) =~= help_row(key@, description@));
    }
    line
}

/// Writes a row of plain text.
fn plain_line(words: &str, tone: Tone) -> (line: Vec<Piece>)
    ensures
        line_view(line@) == plain_row(words@, tone),
{
    let mut line = new_line();
    push_regular(&mut line, words, tone);
    proof {
        assert(line_view(line@) =~= plain_row(words@, tone));
    }
    line
}

/// The recorder help.
pub open spec fn help() -> Seq<Seq<PieceView>> {
    seq![
        plain_row(
            "record starts audio capture immediately. No menu is necessary."@,
            Tone::Plain,
        ),
        plain_row(""@, Tone::Plain),
        help_row("Ctrl+C / S / Q / Esc"@, "finalize the MP3 and exit"@),
        help_row("Space"@, "pause or resume (paused time is omitted)"@),
        help_row("W"@, "cycle waveform, spectrum, and split views"@),
        help_row("C"@, "name and finalize the current session part"@),
        help_row("Up / Down"@, "select a finalized session file"@),
        help_row("E"@, "review and trim the selected named clip"@),
        help_row("? / Esc"@, "close this help"@),
        plain_row(""@, Tone::Plain),
        plain_row(
            "Captures every ordinary app routed to the default Windows output."@,
            Tone::Muted,
        ),
    ]
}

/// Writes the recorder help.
pub fn help_lines() -> (lines: Vec<Vec<Piece>>)
    ensures
        lines_view(lines@) == help(),
{
    let mut lines = new_lines();
    push_line(
        &mut lines,
        plain_line(
            "record starts audio capture immediately. No menu is necessary.",
            Tone::Plain,
        ),
    );
    push_line(&mut lines, plain_line("", Tone::Plain));
    push_line(&mut lines, help_line("Ctrl+C / S / Q / Esc", "finalize the MP3 and exit"));
    push_line(&mut lines, help_line("Space", "pause or resume (paused time is omitted)"));
    push_line(&mut lines, help_line("W", "cycle waveform, spectrum, and split views"));
    push_line(&mut lines, help_line("C", "name and finalize the current session part"));
    push_line(&mut lines, help_line("Up / Down", "select a finalized session file"));
    push_line(&mut lines, help_line("E", "review and trim the selected named clip"));
    push_line(&mut lines, help_line("? / Esc", "close this help"));
    push_line(&mut lines, plain_line("", Tone::Plain));
    push_line(
        &mut lines,
        plain_line(
            "Captures every ordinary app routed to the default Windows output.",
            Tone::Muted,
        ),
    );
    proof {
        assert(lines_view(lines@) =~= help());
    }
    lines
}

/// The clip-name prompt with its validation message.
pub open spec fn prompt(prompt: tui::PromptView) -> Seq<Seq<PieceView>> {
    seq![
        seq![
            regular(" File name  "@, Tone::Cyan),
            if prompt.input.len() == 0 {
                regular("clip-name"@, Tone::Muted)
            } else {
                strong(prompt.input, Tone::White)
            },
        ],
        plain_row(""@, Tone::Plain),
        match prompt.error {
            Some(error) => plain_row(error, Tone::Red),
            None => plain_row(
                "Enter saves this part as a clip. Capture continues in a new part."@,
                Tone::Muted,
            ),
        },
        plain_row("Enter save   Esc cancel"@, Tone::Muted),
    ]
}

/// Writes the clip-name prompt. There is nothing to write while it is closed.
pub fn prompt_lines(app: &App) -> (lines: Vec<Vec<Piece>>)
    ensures
        app@.prompt is None ==> lines@.len() == 0,
        app@.prompt is Some ==> lines_view(lines@) == prompt(app@.prompt->0),
{
    let mut lines = new_lines();
    match &app.clip_prompt {
        None => {
            proof {
                assert(lines_view(lines@).len() == 0);
            }
        },
        Some(open) => {
            let mut first = new_line();
            push_regular(&mut first, " File name  ", Tone::Cyan);
            if open.input.as_str().unicode_len() == 0 {
                push_regular(&mut first, "clip-name", Tone::Muted);
            } else {
                push_strong(&mut first, open.input.as_str(), Tone::White);
            }
            let ghost input_line = line_view(first@);
            push_line(&mut lines, first);
            push_line(&mut lines, plain_line("", Tone::Plain));
            match &open.error {
                Some(error) => {
                    push_line(&mut lines, plain_line(error.as_str(), Tone::Red));
                },
                None => {
                    push_line(
                        &mut lines,
                        plain_line(
                            "Enter saves this part as a clip. Capture continues in a new part.",
                            Tone::Muted,
                        ),
                    );
                },
            }
            push_line(&mut lines, plain_line("Enter save   Esc cancel", Tone::Muted));
            proof {
                assert(input_line =~= prompt(app@.prompt->0)[0]);
                assert(lines_view(lines@) =~= prompt(app@.prompt->0));
            }
        },
    }
    lines
}

/// The word for the active boundary.
pub open spec fn handle_name(handle: SelectionHandle) -> Seq<char> {
    match handle {
        SelectionHandle::Start => "START"@,
        SelectionHandle::End => "END"@,
    }
}

/// The status word of the editor.
pub open spec fn review_status(trimming: bool, playing: bool) -> PieceView {
    if trimming {
        strong("  ◌ WRITING TRIMMED MP3"@, Tone::Amber)
    } else if playing {
        strong("  ▶ PLAYING SELECTION"@, Tone::Green)
    } else {
        regular(""@, Tone::Plain)
    }
}

/// The two lines on top of the editor: times and the active boundary.
pub open spec fn review_head(
    selection: clip::SelectionView,
    trimming: bool,
    playing: bool,
) -> Seq<Seq<PieceView>> {
    let rate = selection.sample_rate;
    seq![
        seq![
            strong(" START "@, Tone::Cyan),
            regular(
                labels::clip_time(
                    labels::frame_milliseconds(
                        (selection.start - selection.source_start) as nat,
                        rate,
                    ),
                ),
                Tone::Plain,
            ),
            strong("   END "@, Tone::Green),
            regular(
                labels::clip_time(
                    labels::frame_milliseconds(
                        (selection.end - selection.source_start) as nat,
                        rate,
                    ),
                ),
                Tone::Plain,
            ),
            strong("   LENGTH "@, Tone::Purple),
            regular(
                labels::seconds_text(
                    binary64::frame_nanoseconds((selection.end - selection.start) as nat, rate),
                    2,
                ) + "s"@,
                Tone::Plain,
            ),
            review_status(trimming, playing),
        ],
        seq![
            regular(" ACTIVE HANDLE  "@, Tone::Muted),
            strong(handle_name(selection.active), Tone::Amber),
        ],
    ]
}

/// Writes the two lines on top of the editor.
pub fn review_head_lines(review: &ClipReview, trimming: bool, playing: bool) -> (lines: Vec<
    Vec<Piece>,
>)
    requires
        review@.selection.wf(),
        binary64::frames_have_length(
            (review@.selection.end - review@.selection.start) as nat,
            review@.selection.sample_rate,
        ),
    ensures
        lines_view(lines@) == review_head(review@.selection, trimming, playing),
{
    let selection = &review.selection;
    let rate: u32 = selection.sample_rate();
    let origin: u64 = selection.source_start_frame();
    let mut times = new_line();
    push_strong(&mut times, " START ", Tone::Cyan);
    push_regular(
        &mut times,
        labels::format_clip_time(selection.start_frame() - origin, rate).as_str(),
        Tone::Plain,
    );
    push_strong(&mut times, "   END ", Tone::Green);
    push_regular(
        &mut times,
        labels::format_clip_time(selection.end_frame() - origin, rate).as_str(),
        Tone::Plain,
    );
    push_strong(&mut times, "   LENGTH ", Tone::Purple);
    let mut length = String::new();
    labels::push_seconds(&mut length, &selection.duration(), 2);
    length.append("s");
    push_regular(&mut times, length.as_str(), Tone::Plain);
    if trimming {
        push_strong(&mut times, "  ◌ WRITING TRIMMED MP3", Tone::Amber);
    } else if playing {
        push_strong(&mut times, "  ▶ PLAYING SELECTION", Tone::Green);
    } else {
        push_regular(&mut times, "", Tone::Plain);
    }
    let mut active = new_line();
    push_regular(&mut active, " ACTIVE HANDLE  ", Tone::Muted);
    match selection.active_handle() {
        SelectionHandle::Start => push_strong(&mut active, "START", Tone::Amber),
        SelectionHandle::End => push_strong(&mut active, "END", Tone::Amber),
    }
    let ghost first = line_view(times@);
    let ghost second = line_view(active@);
    let mut lines = new_lines();
    push_line(&mut lines, times);
    push_line(&mut lines, active);
    proof {
        let expected = review_head(review@.selection, trimming, playing);
        assert(length@ =~= labels::seconds_text(
            binary64::frame_nanoseconds(
                (review@.selection.end - review@.selection.start) as nat,
                review@.selection.sample_rate,
            ),
            2,
        ) + "s"@);
        assert(first =~= expected[0]);
        assert(second =~= expected[1]);
        assert(lines_view(lines@) =~= expected);
    }
    lines
}

/// The message of the editor: its error, or the keys that move a boundary.
pub open spec fn review_message(error: Option<Seq<char>>) -> PieceView {
    match error {
        Some(error) => regular(error, Tone::Red),
        None => regular(
            "Tab handle   ←/→ 0.1s   Shift+←/→ 1s   Ctrl+←/→ 0.01s"@,
            Tone::Muted,
        ),
    }
}

/// Writes the message of the editor.
pub fn review_message_piece(review: &ClipReview) -> (piece: Piece)
    ensures
        piece@ == review_message(review@.error),
{
    match &review.error {
        Some(error) => Piece { text: error.clone(), tone: Tone::Red, bold: false },
        None => Piece {
            text: String::from_str("Tab handle   ←/→ 0.1s   Shift+←/→ 1s   Ctrl+←/→ 0.01s"),
            tone: Tone::Muted,
            bold: false,
        },
    }
}

/// The controls of the editor.
pub open spec fn review_controls() -> Seq<PieceView> {
    seq![
        strong(" P "@, Tone::Green),
        regular("preview   "@, Tone::Muted),
        strong(" R "@, Tone::Cyan),
        regular("reset   "@, Tone::Muted),
        strong(" Enter "@, Tone::Purple),
        regular("save trim   "@, Tone::Muted),
        strong(" Esc "@, Tone::Red),
        regular("keep original"@, Tone::Muted),
    ]
}

/// Writes the controls of the editor.
pub fn review_controls_line() -> (line: Vec<Piece>)
    ensures
        line_view(line@) == review_controls(),
{
    let mut line = new_line();
    push_strong(&mut line, " P ", Tone::Green);
    push_regular(&mut line, "preview   ", Tone::Muted);
    push_strong(&mut line, " R ", Tone::Cyan);
    push_regular(&mut line, "reset   ", Tone::Muted);
    push_strong(&mut line, " Enter ", Tone::Purple);
    push_regular(&mut line, "save trim   ", Tone::Muted);
    push_strong(&mut line, " Esc ", Tone::Red);
    push_regular(&mut line, "keep original", Tone::Muted);
    proof {
        assert(line_view(line@) =~= review_controls());
    }
    line
}

/// Writes the title of the editor.
pub fn review_title(file: &SavedFile) -> (title: String)
    ensures
        title@ == " CLIP REVIEW · "@ + tui::shown_name(file@.path) + " "@,
{
    let mut title = String::from_str(" CLIP REVIEW · ");
    title.append(tui::shown_file_name(&file.path).as_str());
    title.append(" ");
    title
}

/// The state word of the screen recorder header.
pub open spec fn video_state_piece(state: CaptureState) -> PieceView {
    if state == CaptureState::Previewing {
        strong("▶ RECORDING"@, Tone::Red)
    } else {
        state_piece(state)
    }
}

/// The size and the frame rate of a screen recording.
pub open spec fn geometry_text(app: video::VideoAppView) -> Seq<char> {
    if app.width > 0 {
        text::decimal(app.width) + "x"@ + text::decimal(app.height) + " @ "@ + text::decimal(
            app.fps,
        ) + " fps"@
    } else {
        "preparing encoder"@
    }
}

/// The header line of the screen recorder.
pub open spec fn video_header(app: video::VideoAppView) -> Seq<PieceView> {
    seq![
        video_state_piece(app.state),
        regular("   "@ + labels::clock(app.recorded / 1_000_000_000) + "   "@, Tone::Plain),
        regular(geometry_text(app) + " · H.264 + AAC"@, Tone::Muted),
    ]
}

/// Writes capture state, elapsed time, and the encoded format.
pub fn video_header_line(app: &VideoApp) -> (line: Vec<Piece>)
    ensures
        line_view(line@) == video_header(app@),
{
    let mut line = new_line();
    if app.state == CaptureState::Previewing {
        push_strong(&mut line, "▶ RECORDING", Tone::Red);
    } else {
        push_state(&mut line, app.state);
    }
    let mut clock = String::from_str("   ");
    clock.append(labels::format_clock(app.recorded).as_str());
    clock.append("   ");
    push_regular(&mut line, clock.as_str(), Tone::Plain);
    let mut geometry = String::new();
    if app.width > 0 {
        text::push_decimal(&mut geometry, app.width as u64);
        geometry.append("x");
        text::push_decimal(&mut geometry, app.height as u64);
        geometry.append(" @ ");
        text::push_decimal(&mut geometry, app.fps as u64);
        geometry.append(" fps");
    } else {
        geometry.append("preparing encoder");
    }
    geometry.append(" · H.264 + AAC");
    proof {
        assert(geometry@ =~= geometry_text(app@) + " · H.264 + AAC"@);
    }
    push_regular(&mut line, geometry.as_str(), Tone::Muted);
    proof {
        assert(line_view(line@) =~= video_header(app@));
    }
    line
}

/// The columns of the output path in the status panel, which are at least eight.
pub open spec fn status_room(width: nat) -> nat {
    if columns(width, 12) < 8 {
        8
    } else {
        columns(width, 12)
    }
}

/// The status panel of the screen recorder.
pub open spec fn video_status(app: video::VideoAppView, width: nat) -> Seq<Seq<PieceView>> {
    let fixed = seq![
        seq![strong(labels::clock(app.recorded / 1_000_000_000), Tone::White)],
        plain_row(""@, Tone::Plain),
        seq![
            regular(" OUTPUT   "@, Tone::Muted),
            regular(labels::compacted(app.output.text(), status_room(width)), Tone::White),
        ],
        seq![
            regular(" AUDIO    "@, Tone::Muted),
            regular(text::decimal(app.sample_rate / 1_000) + " kHz stereo AAC"@, Tone::Plain),
        ],
    ];
    let ready = match app.capture_ready_ms {
        Some(ready) => seq![
            seq![
                regular(" READY IN "@, Tone::Muted),
                regular(labels::fixed(ready@, 0) + " ms"@, Tone::Plain),
            ],
        ],
        None => Seq::empty(),
    };
    let notice = match app.notice {
        Some(notice) => seq![plain_row(""@, Tone::Plain), plain_row(notice, Tone::Amber)],
        None => Seq::empty(),
    };
    fixed + ready + notice
}

/// Writes the status panel of the screen recorder.
pub fn video_status_lines(app: &VideoApp, width: u16) -> (lines: Vec<Vec<Piece>>)
    requires
        app@.capture_ready_ms is Some ==> app@.capture_ready_ms->0.wf()
            && app@.capture_ready_ms->0@.is_below_power(80),
    ensures
        lines_view(lines@) == video_status(app@, width as nat),
{
    let mut lines = new_lines();
    let mut clock = new_line();
    push_strong(&mut clock, labels::format_clock(app.recorded).as_str(), Tone::White);
    let ghost clock_view = line_view(clock@);
    push_line(&mut lines, clock);
    push_line(&mut lines, plain_line("", Tone::Plain));
    let room: usize = if width < 20 {
        8
    } else {
        (width - 12) as usize
    };
    let mut output = new_line();
    push_regular(&mut output, " OUTPUT   ", Tone::Muted);
    push_regular(&mut output, labels::compact_path(&app.output, room).as_str(), Tone::White);
    let ghost output_view = line_view(output@);
    push_line(&mut lines, output);
    let mut rate = String::new();
    text::push_decimal(&mut rate, (app.sample_rate / 1_000) as u64);
    rate.append(" kHz stereo AAC");
    let mut sound = new_line();
    push_regular(&mut sound, " AUDIO    ", Tone::Muted);
    push_regular(&mut sound, rate.as_str(), Tone::Plain);
    let ghost sound_view = line_view(sound@);
    push_line(&mut lines, sound);
    proof {
        assert(rate@ =~= text::decimal((app.sample_rate / 1_000) as nat) + " kHz stereo AAC"@);
        let expected = video_status(app@, width as nat);
        assert(clock_view =~= expected[0]);
        assert(output_view =~= expected[2]);
        assert(sound_view =~= expected[3]);
    }
    match &app.capture_ready_ms {
        Some(ready) => {
            let mut time = String::new();
            labels::push_fixed(&mut time, ready, 0);
            time.append(" ms");
            let mut line = new_line();
            push_regular(&mut line, " READY IN ", Tone::Muted);
            push_regular(&mut line, time.as_str(), Tone::Plain);
            proof {
                assert(time@ =~= labels::fixed(ready@, 0) + " ms"@);
                assert(line_view(line@) =~= seq![
                    regular(" READY IN "@, Tone::Muted),
                    regular(labels::fixed(ready@, 0) + " ms"@, Tone::Plain),
                ]);
            }
            push_line(&mut lines, line);
        },
        None => {},
    }
    match &app.notice {
        Some(notice) => {
            push_line(&mut lines, plain_line("", Tone::Plain));
            push_line(&mut lines, plain_line(notice.as_str(), Tone::Amber));
        },
        None => {},
    }
    proof {
        assert(lines_view(lines@) =~= video_status(app@, width as nat));
    }
    lines
}

/// The controls of the screen recorder.
pub open spec fn video_controls(narrow: bool) -> Seq<PieceView> {
    seq![
        strong(" Ctrl+C / S "@, Tone::Red),
        regular(
            if narrow {
                "stop   "@
            } else {
                "save & stop   "@
            },
            Tone::Muted,
        ),
        strong(" Space "@, Tone::Amber),
        regular("pause   "@, Tone::Muted),
        strong(" ? "@, Tone::Cyan),
        regular("help"@, Tone::Muted),
    ]
}

/// Writes the controls of the screen recorder.
pub fn video_footer_line(width: u16) -> (line: Vec<Piece>)
    ensures
        line_view(line@) == video_controls(width < WIDE_TERMINAL),
{
    let mut line = new_line();
    push_strong(&mut line, " Ctrl+C / S ", Tone::Red);
    if width < WIDE_TERMINAL {
        push_regular(&mut line, "stop   ", Tone::Muted);
    } else {
        push_regular(&mut line, "save & stop   ", Tone::Muted);
    }
    push_strong(&mut line, " Space ", Tone::Amber);
    push_regular(&mut line, "pause   ", Tone::Muted);
    push_strong(&mut line, " ? ", Tone::Cyan);
    push_regular(&mut line, "help", Tone::Muted);
    proof {
        assert(line_view(line@) =~= video_controls(width < WIDE_TERMINAL));
    }
    line
}

/// The screen recorder help.
pub open spec fn video_help() -> Seq<Seq<PieceView>> {
    seq![
        plain_row(
            "Screen capture records the primary monitor and system audio."@,
            Tone::Plain,
        ),
        plain_row(""@, Tone::Plain),
        help_row("Ctrl+C / S / Q / Esc"@, "finalize the MP4 and exit"@),
        help_row("Space"@, "pause or resume (paused time is omitted)"@),
        help_row("? / Esc"@, "close this help"@),
        plain_row(""@, Tone::Plain),
        plain_row(
            "The MP4 finalizes on exit; keep the terminal open until it saves."@,
            Tone::Muted,
        ),
    ]
}

/// Writes the screen recorder help.
pub fn video_help_lines() -> (lines: Vec<Vec<Piece>>)
    ensures
        lines_view(lines@) == video_help(),
{
    let mut lines = new_lines();
    push_line(
        &mut lines,
        plain_line("Screen capture records the primary monitor and system audio.", Tone::Plain),
    );
    push_line(&mut lines, plain_line("", Tone::Plain));
    push_line(&mut lines, help_line("Ctrl+C / S / Q / Esc", "finalize the MP4 and exit"));
    push_line(&mut lines, help_line("Space", "pause or resume (paused time is omitted)"));
    push_line(&mut lines, help_line("? / Esc", "close this help"));
    push_line(&mut lines, plain_line("", Tone::Plain));
    push_line(
        &mut lines,
        plain_line(
            "The MP4 finalizes on exit; keep the terminal open until it saves.",
            Tone::Muted,
        ),
    );
    proof {
        assert(lines_view(lines@) =~= video_help());
    }
    lines
}

/// The window of the save list starts at the top while the selected file fits,
/// and otherwise ends with the selected file or with the list.
pub proof fn law_windows_move_no_further_than_needed(
    selected: usize,
    count: usize,
    rows: usize,
    start: usize,
)
    requires
        call_ensures(saves_window_start, (Some(selected), count, rows), start),
        selected < count,
        rows > 0,
    ensures
        start <= selected < start + rows,
        selected < rows ==> start == 0,
        selected >= rows ==> selected + 1 == start + rows,
{
}

/// Every row of the saves panel shows one file, in the order of the list. The row
/// of the selected file, and no other, has a marker, another color, and weight.
pub proof fn law_rows_show_files_in_order(app: App, rows: usize, lines: Vec<Vec<Piece>>, row: int)
    requires
        call_ensures(saves_lines, (&app, rows), lines),
        app@.saved.len() > 0,
        app@.selected is Some ==> app@.selected->0 < app@.saved.len(),
        rows > 0,
        0 <= row < lines@.len(),
    ensures
        lines@.len() == (if app@.saved.len() < rows {
            app@.saved.len()
        } else {
            rows as nat
        }),
        ({
            let start = window_start(
                if app@.selected is Some {
                    app@.selected->0
                } else {
                    0
                },
                app@.saved.len(),
                rows as nat,
            );
            let file = app@.saved[start + row];
            let chosen = app@.selected == Some((start + row) as nat);
            let line = lines@[row]@;
            &&& line.len() == 3
            &&& line[1].text@ == tui::shown_name(file.path)
            &&& line[0].bold == chosen && line[1].bold == chosen
            &&& chosen <==> line[0].tone == Tone::Selected
            &&& chosen ==> line[0].text@ == " > ✓ "@ + labels::left_aligned(
                tui::kind_name(file.kind),
                4,
            ) + " "@
            &&& !chosen ==> line[0].text@ == "   ✓ "@ + labels::left_aligned(
                tui::kind_name(file.kind),
                4,
            ) + " "@
            &&& line[2].text@ == "   "@ + labels::seconds_text(
                binary64::frame_nanoseconds(file.frames, file.sample_rate),
                1,
            ) + "s"@
        }),
{
    reveal_strlit(" ");
    reveal_strlit(">");
    reveal_strlit(" ✓ ");
    reveal_strlit(" > ✓ ");
    reveal_strlit("   ✓ ");
    assert(" "@ + ">"@ + " ✓ "@ =~= " > ✓ "@);
    assert(" "@ + " "@ + " ✓ "@ =~= "   ✓ "@);
    assert(lines_view(lines@).len() == lines@.len());
    assert(lines_view(lines@)[row] == line_view(lines@[row]@));
    let line = lines@[row]@;
    assert(line_view(line).len() == line.len());
    assert(line_view(line)[0] == line[0]@);
    assert(line_view(line)[1] == line[1]@);
    assert(line_view(line)[2] == line[2]@);
}

/// The header shows the state first, then the clock, the format, and the view. A
/// running recording is red, and no other state is.
pub proof fn law_headers_show_the_state(app: App, line: Vec<Piece>)
    requires
        call_ensures(header_line, (&app,), line),
    ensures
        line@.len() == 5,
        line@[0].tone == Tone::Red <==> app@.state == CaptureState::Recording,
        app@.state == CaptureState::Recording ==> line@[0].text@ == "● RECORDING"@,
        app@.state == CaptureState::Paused ==> line@[0].text@ == "Ⅱ PAUSED"@,
        app@.state == CaptureState::Starting ==> line@[0].text@ == "● STARTING"@,
        app@.state == CaptureState::Previewing ==> line@[0].text@ == "▶ PREVIEW"@,
        app@.state == CaptureState::Finalizing ==> line@[0].text@ == "◌ FINALIZING"@,
        line@[1].text@ == "   "@ + labels::clock(
            binary64::frame_nanoseconds(app@.encoded_frames, app@.sample_rate) / 1_000_000_000,
        ) + "   "@,
        line@[4].text@ == app@.view.name(),
{
    assert(line_view(line@).len() == line@.len());
    assert(line_view(line@)[0] == line@[0]@);
    assert(line_view(line@)[1] == line@[1]@);
    assert(line_view(line@)[4] == line@[4]@);
}

/// A format is told in kilobits and kilohertz, rounded down.
pub proof fn law_formats_are_told_in_thousands(
    bitrate: u32,
    sample_rate: u32,
    label: String,
    kilobits: nat,
    kilohertz: nat,
)
    requires
        call_ensures(format_label, (bitrate, sample_rate), label),
        kilobits * 1_000 <= bitrate < (kilobits + 1) * 1_000,
        kilohertz * 1_000 <= sample_rate < (kilohertz + 1) * 1_000,
    ensures
        label@ == text::decimal(kilobits) + " kbps · "@ + text::decimal(kilohertz)
            + " kHz · stereo"@,
{
    assert(bitrate as nat / 1_000 == kilobits);
    assert(sample_rate as nat / 1_000 == kilohertz);
}

/// The title names what is captured.
pub proof fn law_titles_name_the_source(screen: bool, line: Vec<Piece>)
    requires
        call_ensures(title_line, (screen,), line),
    ensures
        line@.len() == 2,
        line@[0].text@ == " record "@,
        screen ==> line@[1].text@ == "SCREEN CAPTURE"@,
        !screen ==> line@[1].text@ == "SYSTEM AUDIO"@,
{
    assert(line_view(line@).len() == line@.len());
    assert(line_view(line@)[0] == line@[0]@);
    assert(line_view(line@)[1] == line@[1]@);
}

/// The title of the saves panel tells the notice where there is one.
pub proof fn law_notices_stand_in_the_title(app: App, title: String)
    requires
        call_ensures(saves_title_text, (&app,), title),
    ensures
        app@.notice matches Some(notice) ==> title@ == " SAVES · "@ + notice + " "@,
        app@.notice is None ==> title@ == " SAVES · SESSION "@,
{
}

/// Only a session offers clips and their editor. Stopping comes first and help
/// comes last. A terminal of 96 columns has the long labels.
pub proof fn law_footers_offer_what_is_possible(app: App, width: u16, lines: Vec<Vec<Piece>>)
    requires
        call_ensures(footer_lines, (&app, width), lines),
    ensures
        lines@.len() == 2,
        ({
            let keys = lines@[0]@;
            &&& app@.clips_enabled ==> keys.len() == 12 && keys[6].text@ == " C "@
                && keys[8].text@ == " E "@
            &&& !app@.clips_enabled ==> keys.len() == 8
            &&& keys[0].text@ == " Ctrl+C / S "@ && keys[2].text@ == " Space "@ && keys[4].text@
                == " W "@
            &&& width >= 96 ==> keys[1].text@ == "save & stop   "@
            &&& width < 96 ==> keys[1].text@ == "stop   "@
            &&& keys[keys.len() - 2].text@ == " ? "@
        }),
        app@.clips_enabled ==> lines@[1]@[0].text@ == " SESSION  "@,
        !app@.clips_enabled ==> lines@[1]@[0].text@ == " OUTPUT   "@,
        lines@[1]@[1].text@.len() + 4 <= width || lines@[1]@[1].text@.len() == 0,
        app@.output.text().len() + 4 <= width ==> lines@[1]@[1].text@ == app@.output.text(),
{
    assert(lines_view(lines@).len() == lines@.len());
    assert(lines_view(lines@)[0] == line_view(lines@[0]@));
    assert(lines_view(lines@)[1] == line_view(lines@[1]@));
    let keys = lines@[0]@;
    assert(line_view(keys).len() == keys.len());
    assert(line_view(keys)[0] == keys[0]@);
    assert(line_view(keys)[1] == keys[1]@);
    assert(line_view(keys)[2] == keys[2]@);
    assert(line_view(keys)[4] == keys[4]@);
    assert(line_view(keys)[6] == keys[6]@);
    assert(line_view(keys)[keys.len() - 2] == keys[keys.len() - 2]@);
    if app@.clips_enabled {
        assert(line_view(keys)[8] == keys[8]@);
    }
    let shown = lines@[1]@;
    assert(line_view(shown).len() == shown.len());
    assert(line_view(shown)[0] == shown[0]@);
    assert(line_view(shown)[1] == shown[1]@);
    labels::law_compact_paths_respect_the_limit(app@.output.text(), columns(width as nat, 4));
}

/// An open prompt shows what was typed, or a hint, and the error where there is
/// one. A closed prompt shows nothing.
pub proof fn law_prompts_show_what_was_typed(app: App, lines: Vec<Vec<Piece>>)
    requires
        call_ensures(prompt_lines, (&app,), lines),
    ensures
        app@.prompt is None ==> lines@.len() == 0,
        app@.prompt matches Some(open) ==> {
            &&& lines@.len() == 4
            &&& open.input.len() > 0 ==> lines@[0]@[1].text@ == open.input
            &&& open.input.len() == 0 ==> lines@[0]@[1].text@ == "clip-name"@
            &&& open.error is Some <==> lines@[2]@[0].tone == Tone::Red
            &&& open.error matches Some(error) ==> lines@[2]@[0].text@ == error
        },
{
    if app@.prompt is Some {
        assert(lines_view(lines@).len() == lines@.len());
        assert(lines_view(lines@)[0] == line_view(lines@[0]@));
        assert(lines_view(lines@)[2] == line_view(lines@[2]@));
        let first = lines@[0]@;
        let third = lines@[2]@;
        assert(line_view(first).len() == first.len());
        assert(line_view(first)[1] == first[1]@);
        assert(line_view(third).len() == third.len());
        assert(line_view(third)[0] == third[0]@);
    }
}

/// The editor counts its times from the start of the source and names the
/// boundary that the keys move. It says when it writes, and when it plays.
pub proof fn law_editors_show_the_selection(
    review: ClipReview,
    trimming: bool,
    playing: bool,
    lines: Vec<Vec<Piece>>,
    start: String,
    end: String,
)
    requires
        call_ensures(review_head_lines, (&review, trimming, playing), lines),
        review@.selection.wf(),
        review@.selection.source_end <= u64::MAX,
        0 < review@.selection.sample_rate <= u32::MAX,
        call_ensures(
            labels::format_clip_time,
            (
                (review@.selection.start - review@.selection.source_start) as u64,
                review@.selection.sample_rate as u32,
            ),
            start,
        ),
        call_ensures(
            labels::format_clip_time,
            (
                (review@.selection.end - review@.selection.source_start) as u64,
                review@.selection.sample_rate as u32,
            ),
            end,
        ),
    ensures
        lines@.len() == 2,
        lines@[0]@[0].text@ == " START "@ && lines@[0]@[1].text@ == start@,
        lines@[0]@[2].text@ == "   END "@ && lines@[0]@[3].text@ == end@,
        lines@[0]@[5].text@ == labels::seconds_text(
            binary64::frame_nanoseconds(
                (review@.selection.end - review@.selection.start) as nat,
                review@.selection.sample_rate,
            ),
            2,
        ) + "s"@,
        trimming ==> lines@[0]@[6].text@ == "  ◌ WRITING TRIMMED MP3"@,
        !trimming && playing ==> lines@[0]@[6].text@ == "  ▶ PLAYING SELECTION"@,
        !trimming && !playing ==> lines@[0]@[6].text@.len() == 0,
        review@.selection.active == SelectionHandle::Start ==> lines@[1]@[1].text@ == "START"@,
        review@.selection.active == SelectionHandle::End ==> lines@[1]@[1].text@ == "END"@,
{
    reveal_strlit("");
    assert(lines_view(lines@).len() == lines@.len());
    assert(lines_view(lines@)[0] == line_view(lines@[0]@));
    assert(lines_view(lines@)[1] == line_view(lines@[1]@));
    let times = lines@[0]@;
    let active = lines@[1]@;
    assert(line_view(times).len() == times.len());
    assert(line_view(times)[0] == times[0]@);
    assert(line_view(times)[1] == times[1]@);
    assert(line_view(times)[2] == times[2]@);
    assert(line_view(times)[3] == times[3]@);
    assert(line_view(times)[5] == times[5]@);
    assert(line_view(times)[6] == times[6]@);
    assert(line_view(active).len() == active.len());
    assert(line_view(active)[1] == active[1]@);
}

/// The message of the editor is its error in red, or the keys that move a
/// boundary.
pub proof fn law_editor_errors_are_red(review: ClipReview, piece: Piece)
    requires
        call_ensures(review_message_piece, (&review,), piece),
    ensures
        review@.error is Some <==> piece.tone == Tone::Red,
        review@.error matches Some(error) ==> piece.text@ == error,
        review@.error is None ==> piece.text@
            == "Tab handle   ←/→ 0.1s   Shift+←/→ 1s   Ctrl+←/→ 0.01s"@,
{
}

/// The header of the screen recorder shows the whole seconds that were recorded,
/// and its size once it is known.
pub proof fn law_video_headers_show_the_recorded_time(
    app: VideoApp,
    line: Vec<Piece>,
    seconds: nat,
)
    requires
        call_ensures(video_header_line, (&app,), line),
        seconds * 1_000_000_000 <= app@.recorded < (seconds + 1) * 1_000_000_000,
    ensures
        line@.len() == 3,
        line@[1].text@ == "   "@ + labels::clock(seconds) + "   "@,
        app@.state == CaptureState::Recording || app@.state == CaptureState::Previewing
            <==> line@[0].tone == Tone::Red,
        app@.state == CaptureState::Paused ==> line@[0].text@ == "Ⅱ PAUSED"@,
        app@.width > 0 ==> line@[2].text@ == text::decimal(app@.width) + "x"@ + text::decimal(
            app@.height,
        ) + " @ "@ + text::decimal(app@.fps) + " fps"@ + " · H.264 + AAC"@,
        app@.width == 0 ==> line@[2].text@ == "preparing encoder"@ + " · H.264 + AAC"@,
{
    assert(app@.recorded / 1_000_000_000 == seconds);
    assert(line_view(line@).len() == line@.len());
    assert(line_view(line@)[0] == line@[0]@);
    assert(line_view(line@)[1] == line@[1]@);
    assert(line_view(line@)[2] == line@[2]@);
}

/// The status panel shows the clock first, and a notice last. The path of the
/// output has at least eight columns.
pub proof fn law_status_panels_end_with_the_notice(
    app: VideoApp,
    width: u16,
    lines: Vec<Vec<Piece>>,
)
    requires
        call_ensures(video_status_lines, (&app, width), lines),
    ensures
        lines@.len() == 4 + (if app@.capture_ready_ms is Some {
            1nat
        } else {
            0
        }) + (if app@.notice is Some {
            2nat
        } else {
            0
        }),
        lines@[0]@[0].text@ == labels::clock(app@.recorded / 1_000_000_000),
        app@.output.text().len() <= 8 || app@.output.text().len() + 12 <= width
            ==> lines@[2]@[1].text@ == app@.output.text(),
        lines@[2]@[1].text@.len() <= 8 || lines@[2]@[1].text@.len() + 12 <= width,
        app@.notice matches Some(notice) ==> lines@[lines@.len() - 1]@[0].text@ == notice,
        app@.capture_ready_ms matches Some(ready) ==> lines@[4]@[1].text@ == labels::fixed(
            ready@,
            0,
        ) + " ms"@,
{
    let view = lines_view(lines@);
    assert(view.len() == lines@.len());
    assert(view[0] == line_view(lines@[0]@));
    assert(view[2] == line_view(lines@[2]@));
    assert(view[view.len() - 1] == line_view(lines@[lines@.len() - 1]@));
    assert(line_view(lines@[0]@)[0] == lines@[0]@[0]@);
    assert(line_view(lines@[2]@).len() == lines@[2]@.len());
    assert(line_view(lines@[2]@)[1] == lines@[2]@[1]@);
    let last = lines@[lines@.len() - 1]@;
    assert(line_view(last).len() == last.len());
    assert(last.len() > 0 ==> line_view(last)[0] == last[0]@);
    if app@.capture_ready_ms is Some {
        assert(view[4] == line_view(lines@[4]@));
        assert(line_view(lines@[4]@).len() == lines@[4]@.len());
        assert(line_view(lines@[4]@)[1] == lines@[4]@[1]@);
    }
    labels::law_compact_paths_respect_the_limit(app@.output.text(), status_room(width as nat));
}

/// The controls of the screen recorder offer stopping, pausing, and help, with
/// long labels from 96 columns on.
pub proof fn law_video_footers_offer_three_keys(width: u16, line: Vec<Piece>)
    requires
        call_ensures(video_footer_line, (width,), line),
    ensures
        line@.len() == 6,
        line@[0].text@ == " Ctrl+C / S "@ && line@[2].text@ == " Space "@ && line@[4].text@
            == " ? "@,
        width >= 96 ==> line@[1].text@ == "save & stop   "@,
        width < 96 ==> line@[1].text@ == "stop   "@,
{
    assert(line_view(line@).len() == line@.len());
    assert(line_view(line@)[0] == line@[0]@);
    assert(line_view(line@)[1] == line@[1]@);
    assert(line_view(line@)[2] == line@[2]@);
    assert(line_view(line@)[4] == line@[4]@);
}

/// The help names every key of the recorder once, with what it does.
pub proof fn law_the_help_names_every_key(lines: Vec<Vec<Piece>>, row: int)
    requires
        call_ensures(help_lines, (), lines),
        2 <= row <= 8,
    ensures
        lines@.len() == 11,
        lines@[row]@.len() == 2,
        lines@[row]@[0].bold && !lines@[row]@[1].bold,
        row == 2 ==> lines@[row]@[1].text@ == "finalize the MP3 and exit"@,
        row == 3 ==> lines@[row]@[1].text@ == "pause or resume (paused time is omitted)"@,
        row == 4 ==> lines@[row]@[1].text@ == "cycle waveform, spectrum, and split views"@,
        row == 5 ==> lines@[row]@[1].text@ == "name and finalize the current session part"@,
        row == 6 ==> lines@[row]@[1].text@ == "select a finalized session file"@,
        row == 7 ==> lines@[row]@[1].text@ == "review and trim the selected named clip"@,
        row == 8 ==> lines@[row]@[1].text@ == "close this help"@,
        lines@[row]@[0].text@ == labels::left_aligned(
            if row == 2 {
                "Ctrl+C / S / Q / Esc"@
            } else if row == 3 {
                "Space"@
            } else if row == 4 {
                "W"@
            } else if row == 5 {
                "C"@
            } else if row == 6 {
                "Up / Down"@
            } else if row == 7 {
                "E"@
            } else {
                "? / Esc"@
            },
            24,
        ),
{
    assert(lines_view(lines@).len() == lines@.len());
    assert(lines_view(lines@)[row] == line_view(lines@[row]@));
    let line = lines@[row]@;
    assert(line_view(line).len() == line.len());
    assert(line_view(line)[0] == line[0]@);
    assert(line_view(line)[1] == line[1]@);
}

/// The keys of the editor are named with what they do.
pub proof fn law_editor_controls_name_their_keys(line: Vec<Piece>, index: int)
    requires
        call_ensures(review_controls_line, (), line),
        0 <= index < 4,
    ensures
        line@.len() == 8,
        line@[2 * index].bold && !line@[2 * index + 1].bold,
        index == 0 ==> line@[0].text@ == " P "@ && line@[1].text@ == "preview   "@,
        index == 1 ==> line@[2].text@ == " R "@ && line@[3].text@ == "reset   "@,
        index == 2 ==> line@[4].text@ == " Enter "@ && line@[5].text@ == "save trim   "@,
        index == 3 ==> line@[6].text@ == " Esc "@ && line@[7].text@ == "keep original"@,
{
    assert(line_view(line@).len() == line@.len());
    assert(line_view(line@)[2 * index] == line@[2 * index]@);
    assert(line_view(line@)[2 * index + 1] == line@[2 * index + 1]@);
}

} // verus!
