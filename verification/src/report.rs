//! Final reports: summaries, file links, and diagnostics.
//!
//! A finished recording prints a clickable path and one line with its audio
//! properties. The link is an OSC 8 escape sequence around a file URI.
use vstd::prelude::*;

use crate::audio::{RecordingSummary, SavedFileKind};
use crate::binary64;
use crate::labels;
use crate::launch;
use crate::text;
use crate::video::VideoSummary;

verus! {

/// Bytes that stand for themselves in a file URI path.
pub open spec fn is_plain(byte: u8) -> bool {
    ||| 48 <= byte <= 57
    ||| 65 <= byte <= 90
    ||| 97 <= byte <= 122
    ||| byte == 45
    ||| byte == 46
    ||| byte == 95
    ||| byte == 126
    ||| byte == 47
    ||| byte == 58
}

/// The character for one hexadecimal digit.
pub open spec fn hex_char(digit: int) -> char {
    if digit < 10 {
        (48 + digit) as char
    } else {
        (55 + digit) as char
    }
}

/// The form of one byte in a file URI path.
pub open spec fn encoded_byte(byte: u8) -> Seq<char> {
    if is_plain(byte) {
        seq![byte as char]
    } else {
        seq!['%', hex_char(byte as int / 16), hex_char(byte as int % 16)]
    }
}

/// The form of bytes in a file URI path.
pub open spec fn encoded(bytes: Seq<u8>) -> Seq<char>
    decreases bytes.len(),
{
    if bytes.len() == 0 {
        Seq::empty()
    } else {
        encoded_byte(bytes[0]) + encoded(bytes.skip(1))
    }
}

/// Reports whether a byte stands for itself in a file URI path.
fn plain(byte: u8) -> (result: bool)
    ensures
        result == is_plain(byte),
{
    (48 <= byte && byte <= 57) || (65 <= byte && byte <= 90) || (97 <= byte && byte <= 122) || byte
        == 45 || byte == 46 || byte == 95 || byte == 126 || byte == 47 || byte == 58
}

/// Returns the character for one hexadecimal digit.
fn hex(digit: u8) -> (character: char)
    requires
        digit < 16,
    ensures
        character == hex_char(digit as int),
{
    if digit < 10 {
        (48 + digit) as char
    } else {
        (55 + digit) as char
    }
}

/// Encodes bytes that are not safe in a file URI path.
pub fn percent_encode_uri_path(path: &str) -> (result: String)
    ensures
        result@ == encoded(vstd::utf8::encode_utf8(path@)),
{
    let bytes = path.as_bytes();
    let mut result = String::new();
    let mut index: usize = 0;
    proof {
        assert(bytes@.skip(0) =~= bytes@);
        assert(result@ + encoded(bytes@) =~= encoded(bytes@));
    }
    while index < bytes.len()
        invariant
            index <= bytes@.len(),
            result@ + encoded(bytes@.skip(index as int)) == encoded(bytes@),
        decreases bytes@.len() - index,
    {
        let byte: u8 = bytes[index];
        let ghost before = result@;
        let ghost rest = bytes@.skip(index as int);
        proof {
            assert(rest[0] == byte);
            assert(rest.skip(1) =~= bytes@.skip(index + 1));
        }
        if plain(byte) {
            result.push(byte as char);
        } else {
            result.push('%');
            result.push(hex(byte / 16));
            result.push(hex(byte % 16));
        }
        proof {
            assert(result@ =~= before + encoded_byte(byte));
            assert(result@ + encoded(bytes@.skip(index + 1)) =~= before + encoded(rest));
        }
        index += 1;
    }
    proof {
        assert(bytes@.skip(index as int) =~= Seq::<u8>::empty());
        assert(result@ + Seq::<char>::empty() =~= result@);
    }
    result
}

/// The value of a hexadecimal digit.
pub open spec fn hex_value(character: char) -> int {
    if character <= '9' {
        character as int - 48
    } else {
        character as int - 55
    }
}

/// The bytes that a file URI path stands for.
pub open spec fn decoded(path: Seq<char>) -> Seq<u8>
    decreases path.len(),
{
    if path.len() == 0 {
        Seq::empty()
    } else if path[0] == '%' && path.len() >= 3 {
        seq![(hex_value(path[1]) * 16 + hex_value(path[2])) as u8] + decoded(path.skip(3))
    } else {
        seq![path[0] as u8] + decoded(path.skip(1))
    }
}

/// An encoded path stands for exactly the bytes that were encoded.
pub proof fn law_encoded_paths_can_be_decoded(bytes: Seq<u8>)
    ensures
        decoded(encoded(bytes)) == bytes,
    decreases bytes.len(),
{
    if bytes.len() == 0 {
        assert(decoded(encoded(bytes)) =~= bytes);
    } else {
        let byte = bytes[0];
        let rest = bytes.skip(1);
        let whole = encoded(bytes);
        law_encoded_paths_can_be_decoded(rest);
        if is_plain(byte) {
            assert(whole[0] == byte as char);
            assert(whole.skip(1) =~= encoded(rest));
        } else {
            let high = byte as int / 16;
            let low = byte as int % 16;
            assert(whole[0] == '%' && whole[1] == hex_char(high) && whole[2] == hex_char(low));
            assert(whole.skip(3) =~= encoded(rest));
            assert(hex_value(hex_char(high)) == high && hex_value(hex_char(low)) == low);
        }
        assert(decoded(whole) =~= seq![byte] + rest);
        assert(seq![byte] + rest =~= bytes);
    }
}

/// An encoded path consists of plain characters and percent signs, so it needs
/// no quotes in a terminal sequence.
pub proof fn law_encoded_paths_are_plain(bytes: Seq<u8>)
    ensures
        forall|i: int|
            0 <= i < encoded(bytes).len() ==> (#[trigger] encoded(bytes)[i] == '%' || (
            encoded(bytes)[i] as int) < 128 && is_plain(encoded(bytes)[i] as u8)),
    decreases bytes.len(),
{
    if bytes.len() > 0 {
        law_encoded_paths_are_plain(bytes.skip(1));
        let front = encoded_byte(bytes[0]);
        let back = encoded(bytes.skip(1));
        assert forall|i: int| 0 <= i < encoded(bytes).len() implies (#[trigger] encoded(bytes)[i]
            == '%' || (encoded(bytes)[i] as int) < 128 && is_plain(encoded(bytes)[i] as u8)) by {
            if i < front.len() {
                assert(encoded(bytes)[i] == front[i]);
            } else {
                assert(encoded(bytes)[i] == back[i - front.len()]);
            }
        }
    }
}

/// A path with forward slashes.
pub open spec fn with_slashes(path: Seq<char>) -> Seq<char> {
    Seq::new(
        path.len(),
        |i: int|
            if path[i] == '\\' {
                '/'
            } else {
                path[i]
            },
    )
}

/// Whether a text starts with another text.
pub open spec fn begins(whole: Seq<char>, front: Seq<char>) -> bool {
    whole.len() >= front.len() && whole.take(front.len() as int) == front
}

/// A path without the prefix that Windows puts in front of long paths. A
/// network share keeps its two slashes.
pub open spec fn without_long_prefix(path: Seq<char>) -> Seq<char> {
    if begins(path, "//?/UNC/"@) {
        "//"@ + path.skip("//?/UNC/"@.len() as int)
    } else if begins(path, "//?/"@) {
        path.skip("//?/"@.len() as int)
    } else {
        path
    }
}

/// The path that a file URI encodes.
pub open spec fn uri_path(path: Seq<char>, windows: bool) -> Seq<char> {
    if windows {
        without_long_prefix(with_slashes(path))
    } else {
        with_slashes(path)
    }
}

/// The text in front of the path in a file URI.
pub open spec fn uri_scheme(path: Seq<char>) -> Seq<char> {
    if begins(path, "//"@) {
        "file:"@
    } else if begins(path, "/"@) {
        "file://"@
    } else {
        "file:///"@
    }
}

/// Returns a path with forward slashes.
fn slashed(path: &str) -> (letters: Vec<char>)
    ensures
        letters@ == with_slashes(path@),
{
    let all = text::characters(path);
    let mut letters: Vec<char> = Vec::new();
    let mut index: usize = 0;
    while index < all.len()
        invariant
            index <= all.len(),
            letters@.len() == index,
            forall|i: int| 0 <= i < index ==> letters@[i] == with_slashes(all@)[i],
        decreases all.len() - index,
    {
        let letter = all[index];
        if letter == '\\' {
            letters.push('/');
        } else {
            letters.push(letter);
        }
        index += 1;
    }
    proof {
        assert(letters@ =~= with_slashes(path@));
    }
    letters
}

/// Reports whether characters start with a text.
fn starts(letters: &Vec<char>, front: &str) -> (result: bool)
    ensures
        result == begins(letters@, front@),
{
    let length: usize = front.unicode_len();
    if letters.len() < length {
        return false;
    }
    let head = text::slice(letters, 0, length);
    proof {
        assert(head@ =~= letters@.take(length as int));
    }
    text::spells(&head, front)
}

/// Returns the characters behind a text that they start with.
fn behind(letters: &Vec<char>, front: &str) -> (rest: Vec<char>)
    requires
        begins(letters@, front@),
    ensures
        rest@ == letters@.skip(front@.len() as int),
{
    let rest = text::slice(letters, front.unicode_len(), letters.len());
    proof {
        assert(rest@ =~= letters@.skip(front@.len() as int));
    }
    rest
}

/// Returns the path that a file URI encodes.
fn normalized(path: &str, windows: bool) -> (letters: Vec<char>)
    ensures
        letters@ == uri_path(path@, windows),
{
    let letters = slashed(path);
    if !windows {
        return letters;
    }
    if starts(&letters, "//?/UNC/") {
        let share = behind(&letters, "//?/UNC/");
        let mut whole = text::characters("//");
        let mut index: usize = 0;
        while index < share.len()
            invariant
                index <= share.len(),
                whole@ == "//"@ + share@.take(index as int),
            decreases share.len() - index,
        {
            whole.push(share[index]);
            index += 1;
            proof {
                assert(whole@ =~= "//"@ + share@.take(index as int));
            }
        }
        proof {
            assert(share@.take(share@.len() as int) =~= share@);
        }
        return whole;
    }
    if starts(&letters, "//?/") {
        return behind(&letters, "//?/");
    }
    letters
}

/// Converts an absolute local path to a percent-encoded file URI.
pub fn file_uri(absolute: &str, windows: bool) -> (uri: String)
    ensures
        uri@ == uri_scheme(uri_path(absolute@, windows)) + encoded(
            vstd::utf8::encode_utf8(uri_path(absolute@, windows)),
        ),
{
    let letters = normalized(absolute, windows);
    let path = text::string_of(&letters);
    let mut uri = if starts(&letters, "//") {
        String::from_str("file:")
    } else if starts(&letters, "/") {
        String::from_str("file://")
    } else {
        String::from_str("file:///")
    };
    uri.append(percent_encode_uri_path(path.as_str()).as_str());
    uri
}

/// A link in a terminal: an OSC 8 sequence around its label.
pub open spec fn link_text(label: Seq<char>, uri: Seq<char>) -> Seq<char> {
    "\x1b]8;;"@ + uri + "\x1b\\"@ + label + "\x1b]8;;\x1b\\"@
}

/// Adds an OSC 8 file link when standard output is a terminal. A path without a
/// URI is only a label.
pub fn output_link(label: &str, uri: Option<&str>, terminal: bool) -> (link: String)
    ensures
        link@ == (if terminal && uri is Some {
            link_text(label@, uri->0@)
        } else {
            label@
        }),
{
    match uri {
        Some(uri) if terminal => {
            let mut link = String::from_str("\x1b]8;;");
            link.append(uri);
            link.append("\x1b\\");
            link.append(label);
            link.append("\x1b]8;;\x1b\\");
            link
        },
        _ => String::from_str(label),
    }
}

/// The second line of the final process summary.
pub open spec fn detail_text(summary: RecordingSummary, include_file_count: bool) -> Seq<char> {
    let files = summary.files@.len();
    let seconds = labels::seconds_text(
        binary64::frame_nanoseconds(summary.frames as nat, summary.sample_rate as nat),
        1,
    );
    let count = if include_file_count {
        " · "@ + text::decimal(files) + if files == 1 {
            " file"@
        } else {
            " files"@
        }
    } else {
        Seq::empty()
    };
    seconds + "s"@ + count + " · "@ + text::decimal((summary.bitrate / 1_000) as nat)
        + " kbps MP3 · "@ + text::decimal((summary.sample_rate / 1_000) as nat) + " kHz stereo"@
}

/// Formats the stable second line of the final process summary.
pub fn summary_detail(summary: &RecordingSummary, include_file_count: bool) -> (detail: String)
    requires
        binary64::frames_have_length(summary.frames as nat, summary.sample_rate as nat),
    ensures
        detail@ == detail_text(*summary, include_file_count),
{
    let mut detail = String::new();
    labels::push_seconds(&mut detail, &summary.duration(), 1);
    detail.append("s");
    if include_file_count {
        detail.append(" · ");
        text::push_decimal(&mut detail, summary.files.len() as u64);
        if summary.files.len() == 1 {
            detail.append(" file");
        } else {
            detail.append(" files");
        }
    }
    detail.append(" · ");
    text::push_decimal(&mut detail, (summary.bitrate / 1_000) as u64);
    detail.append(" kbps MP3 · ");
    text::push_decimal(&mut detail, (summary.sample_rate / 1_000) as u64);
    detail.append(" kHz stereo");
    proof {
        assert(detail@ =~= detail_text(*summary, include_file_count));
    }
    detail
}

/// Whether a recording is one explicit file.
pub open spec fn is_single_file(summary: RecordingSummary) -> bool {
    summary.files@.len() == 1 && summary.files@[0].kind == SavedFileKind::Recording
}

/// The lines of the final process summary, with the link to the output.
pub open spec fn summary_texts(summary: RecordingSummary, link: Seq<char>) -> Seq<Seq<char>> {
    if summary.files@.len() == 0 {
        seq!["✓ No audio was captured"@, "  "@ + detail_text(summary, false)]
    } else if is_single_file(summary) {
        seq!["✓ Saved "@ + link, "  "@ + detail_text(summary, false)]
    } else {
        seq!["✓ Saved session "@ + link, "  "@ + detail_text(summary, true)]
    }
}

/// Writes a clickable file or session path and its final audio properties.
pub fn summary_lines(summary: &RecordingSummary, link: &str) -> (lines: Vec<String>)
    requires
        binary64::frames_have_length(summary.frames as nat, summary.sample_rate as nat),
    ensures
        launch::texts(lines@) == summary_texts(*summary, link@),
{
    let single = summary.files.len() == 1 && summary.files[0].kind == SavedFileKind::Recording;
    let mut first = String::new();
    if summary.files.len() == 0 {
        first.append("✓ No audio was captured");
    } else {
        if single {
            first.append("✓ Saved ");
        } else {
            first.append("✓ Saved session ");
        }
        first.append(link);
    }
    let mut second = String::from_str("  ");
    second.append(summary_detail(summary, summary.files.len() > 0 && !single).as_str());
    let mut lines: Vec<String> = Vec::new();
    lines.push(first);
    lines.push(second);
    proof {
        let expected = summary_texts(*summary, link@);
        assert(first@ =~= expected[0]);
        assert(launch::texts(lines@) =~= expected);
    }
    lines
}

/// The properties of a finished screen recording.
pub open spec fn video_texts(summary: VideoSummary) -> Seq<Seq<char>> {
    let first = "  "@ + labels::seconds_text(
        binary64::frame_nanoseconds(summary.frames as nat, summary.fps as nat),
        1,
    ) + "s · "@ + text::decimal(summary.width as nat) + "x"@ + text::decimal(summary.height as nat)
        + " @ "@ + text::decimal(summary.fps as nat) + " fps · H.264 "@ + text::decimal(
        (summary.video_bitrate / 1_000_000) as nat,
    ) + " Mbps + AAC "@ + text::decimal((summary.audio_bitrate / 1_000) as nat) + " kbps"@;
    match summary.recording_ready_ms {
        Some(ready) => seq![
            first,
            "  capture ready "@ + labels::fixed(ready@, 1) + " ms · finalized in "@ + labels::fixed(
                summary.finalize_ms@,
                1,
            ) + " ms"@,
        ],
        None => seq![first],
    }
}

/// Writes the properties of a finished screen recording.
pub fn video_lines(summary: &VideoSummary) -> (lines: Vec<String>)
    requires
        binary64::frames_have_length(summary.frames as nat, summary.fps as nat),
        summary.finalize_ms.wf(),
        summary.finalize_ms@.is_below_power(80),
        summary.recording_ready_ms is Some ==> summary.recording_ready_ms->0.wf()
            && summary.recording_ready_ms->0@.is_below_power(80),
    ensures
        launch::texts(lines@) == video_texts(*summary),
{
    let mut first = String::from_str("  ");
    labels::push_seconds(&mut first, &summary.duration(), 1);
    first.append("s · ");
    text::push_decimal(&mut first, summary.width as u64);
    first.append("x");
    text::push_decimal(&mut first, summary.height as u64);
    first.append(" @ ");
    text::push_decimal(&mut first, summary.fps as u64);
    first.append(" fps · H.264 ");
    text::push_decimal(&mut first, (summary.video_bitrate / 1_000_000) as u64);
    first.append(" Mbps + AAC ");
    text::push_decimal(&mut first, (summary.audio_bitrate / 1_000) as u64);
    first.append(" kbps");
    let mut lines: Vec<String> = Vec::new();
    lines.push(first);
    match &summary.recording_ready_ms {
        Some(ready) => {
            let mut second = String::from_str("  capture ready ");
            labels::push_fixed(&mut second, ready, 1);
            second.append(" ms · finalized in ");
            labels::push_fixed(&mut second, &summary.finalize_ms, 1);
            second.append(" ms");
            lines.push(second);
        },
        None => {},
    }
    proof {
        assert(launch::texts(lines@) =~= video_texts(*summary));
    }
    lines
}

/// The lines of a successful diagnosis of audio capture, with the result of the
/// diagnosis of screen capture.
pub open spec fn doctor_texts(screen_error: Option<Seq<char>>) -> Seq<Seq<char>> {
    let sound = seq![
        "✓ default Windows output found"@,
        "✓ WASAPI loopback available"@,
        "✓ native Media Foundation MP3 encoder available"@,
    ];
    match screen_error {
        None => sound + seq![
            "✓ D3D11 device with desktop duplication available"@,
            "✓ native Media Foundation H.264 and AAC encoders available"@,
        ],
        Some(error) => sound + seq!["✗ screen capture unavailable: "@ + error],
    }
}

/// Writes the lines of a successful diagnosis of audio capture.
pub fn doctor_lines(screen_error: Option<&str>) -> (lines: Vec<String>)
    ensures
        launch::texts(lines@) == doctor_texts(
            match screen_error {
                Some(error) => Some(error@),
                None => None,
            },
        ),
{
    let mut lines: Vec<String> = Vec::new();
    lines.push(String::from_str("✓ default Windows output found"));
    lines.push(String::from_str("✓ WASAPI loopback available"));
    lines.push(String::from_str("✓ native Media Foundation MP3 encoder available"));
    match screen_error {
        None => {
            lines.push(String::from_str("✓ D3D11 device with desktop duplication available"));
            lines.push(
                String::from_str("✓ native Media Foundation H.264 and AAC encoders available"),
            );
        },
        Some(error) => {
            let mut line = String::from_str("✗ screen capture unavailable: ");
            line.append(error);
            lines.push(line);
        },
    }
    proof {
        assert(launch::texts(lines@) =~= doctor_texts(
            match screen_error {
                Some(error) => Some(error@),
                None => None,
            },
        ));
    }
    lines
}

/// Exactly the letters, the digits, and the marks `-`, `.`, `_`, `~`, `/`, and `:`
/// stand for themselves. Every other byte has a percent sign and two hexadecimal
/// digits in capital letters, the high one first.
pub proof fn law_plain_bytes_stand_for_themselves(byte: u8)
    ensures
        ({
            let character = byte as char;
            let form = encoded(seq![byte]);
            let high = byte as int / 16;
            let low = byte as int % 16;
            if ('a' <= character <= 'z') || ('A' <= character <= 'Z') || ('0' <= character <= '9')
                || character == '-' || character == '.' || character == '_' || character == '~'
                || character == '/' || character == ':' {
                form == seq![character]
            } else {
                &&& form.len() == 3 && form[0] == '%'
                &&& form[1] as int == (if high < 10 {
                    '0' as int + high
                } else {
                    'A' as int + high - 10
                })
                &&& form[2] as int == (if low < 10 {
                    '0' as int + low
                } else {
                    'A' as int + low - 10
                })
            }
        }),
{
    reveal_with_fuel(encoded, 2);
    assert(seq![byte].skip(1) =~= Seq::<u8>::empty());
    assert(encoded(seq![byte]) =~= encoded_byte(byte));
}

/// Texts are encoded piece by piece.
pub proof fn law_encodings_join(left: Seq<u8>, right: Seq<u8>)
    ensures
        encoded(left + right) == encoded(left) + encoded(right),
    decreases left.len(),
{
    if left.len() == 0 {
        assert(left + right =~= right);
        assert(encoded(left) + encoded(right) =~= encoded(right));
    } else {
        law_encodings_join(left.skip(1), right);
        assert((left + right).skip(1) =~= left.skip(1) + right);
        assert(encoded(left + right) =~= encoded(left) + encoded(right));
    }
}

/// Paths that differ only in the kind of their slashes have the same URI.
pub proof fn law_both_slashes_are_the_same(
    left: &str,
    right: &str,
    windows: bool,
    one: String,
    other: String,
)
    requires
        call_ensures(file_uri, (left, windows), one),
        call_ensures(file_uri, (right, windows), other),
        left@.len() == right@.len(),
        forall|i: int|
            0 <= i < left@.len() ==> #[trigger] left@[i] == right@[i] || ((left@[i] == '/'
                || left@[i] == '\\') && (right@[i] == '/' || right@[i] == '\\')),
    ensures
        one@ == other@,
{
    assert(with_slashes(left@) =~= with_slashes(right@));
}

/// An absolute path has two slashes behind the scheme, and a path that starts
/// with a drive has three. A network share brings its own two.
pub proof fn law_uris_have_three_slashes(path: &str, windows: bool, uri: String)
    requires
        call_ensures(file_uri, (path, windows), uri),
        path@.len() >= 2,
        path@[1] != '/' && path@[1] != '\\',
    ensures
        ({
            let slashed = with_slashes(path@);
            let bytes = encoded(vstd::utf8::encode_utf8(slashed));
            &&& slashed.len() == path@.len()
            &&& path@[0] == '/' || path@[0] == '\\' ==> uri@ == "file://"@ + bytes
            &&& path@[0] != '/' && path@[0] != '\\' ==> uri@ == "file:///"@ + bytes
        }),
{
    reveal_strlit("//?/UNC/");
    reveal_strlit("//?/");
    reveal_strlit("//");
    reveal_strlit("/");
    let slashed = with_slashes(path@);
    lemma_second_letter(slashed, "//?/UNC/"@);
    lemma_second_letter(slashed, "//?/"@);
    lemma_second_letter(slashed, "//"@);
    if path@[0] == '/' || path@[0] == '\\' {
        assert(slashed.take(1) =~= "/"@);
    } else {
        assert(slashed.take(1)[0] == slashed[0]);
    }
}

/// A text does not begin with another one when its second letter differs.
proof fn lemma_second_letter(whole: Seq<char>, front: Seq<char>)
    requires
        whole.len() >= 2,
        front.len() >= 2,
        whole[1] != front[1],
    ensures
        !begins(whole, front),
{
    if whole.len() >= front.len() {
        assert(whole.take(front.len() as int)[1] == whole[1]);
    }
}

/// On Windows the prefix of a long path does not matter: the URI is that of the
/// path behind it.
pub proof fn law_long_paths_have_ordinary_uris(
    long: &str,
    short: &str,
    one: String,
    other: String,
)
    requires
        call_ensures(file_uri, (long, true), one),
        call_ensures(file_uri, (short, true), other),
        long@ == seq!['\\', '\\', '?', '\\'] + short@,
        short@.len() >= 2,
        short@[1] == ':',
    ensures
        one@ == other@,
{
    reveal_strlit("//?/UNC/");
    reveal_strlit("//?/");
    let whole = with_slashes(long@);
    let rest = with_slashes(short@);
    assert(whole =~= seq!['/', '/', '?', '/'] + rest);
    assert(whole[5] == ':');
    if begins(whole, "//?/UNC/"@) {
        assert(whole.take(8)[5] == 'N');
    }
    assert(whole.take(4) =~= "//?/"@);
    assert(whole.skip(4) =~= rest);
    lemma_second_letter(rest, "//?/UNC/"@);
    lemma_second_letter(rest, "//?/"@);
}

/// The path of a network share keeps its two slashes, with and without the prefix
/// of a long path.
pub proof fn law_shares_keep_their_slashes(long: &str, short: &str, one: String, other: String)
    requires
        call_ensures(file_uri, (long, true), one),
        call_ensures(file_uri, (short, true), other),
        long@ == seq!['\\', '\\', '?', '\\', 'U', 'N', 'C', '\\'] + short@.skip(2),
        short@.len() >= 3,
        short@[0] == '\\' && short@[1] == '\\' && short@[2] != '?',
    ensures
        one@ == other@,
        one@ == "file:"@ + encoded(vstd::utf8::encode_utf8(with_slashes(short@))),
{
    reveal_strlit("//?/UNC/");
    reveal_strlit("//?/");
    reveal_strlit("//");
    let whole = with_slashes(long@);
    let rest = with_slashes(short@);
    assert(whole.take(8) =~= "//?/UNC/"@);
    assert("//"@ + whole.skip(8) =~= rest);
    if begins(rest, "//?/UNC/"@) {
        assert(rest.take(8)[2] == '?');
    }
    if begins(rest, "//?/"@) {
        assert(rest.take(4)[2] == '?');
    }
    assert(rest.take(2) =~= "//"@);
}

/// A terminal gets a link to the URI around the label; anything else gets the
/// label alone.
pub proof fn law_links_need_a_terminal(label: &str, uri: &str, terminal: bool, link: String, plain: String)
    requires
        call_ensures(output_link, (label, Some(uri), terminal), link),
        call_ensures(output_link, (label, None::<&str>, terminal), plain),
    ensures
        plain@ == label@,
        !terminal ==> link@ == label@,
        terminal ==> link@ == "\x1b]8;;"@ + uri@ + "\x1b\\"@ + label@ + "\x1b]8;;\x1b\\"@,
{
}

/// The last line of a summary tells kilobits and kilohertz, rounded down. A count
/// of files stands in front of them where it is asked for, and is written with
/// `files` unless it is one.
pub proof fn law_details_are_told_in_thousands(
    summary: RecordingSummary,
    with_count: String,
    without: String,
    kilobits: nat,
    kilohertz: nat,
)
    requires
        call_ensures(summary_detail, (&summary, true), with_count),
        call_ensures(summary_detail, (&summary, false), without),
        kilobits * 1_000 <= summary.bitrate < (kilobits + 1) * 1_000,
        kilohertz * 1_000 <= summary.sample_rate < (kilohertz + 1) * 1_000,
    ensures
        ({
            let seconds = labels::seconds_text(
                binary64::frame_nanoseconds(summary.frames as nat, summary.sample_rate as nat),
                1,
            ) + "s"@;
            let tail = " · "@ + text::decimal(kilobits) + " kbps MP3 · "@ + text::decimal(kilohertz)
                + " kHz stereo"@;
            &&& without@ == seconds + tail
            &&& summary.files@.len() == 1 ==> with_count@ == seconds + " · "@ + text::decimal(1)
                + " file"@ + tail
            &&& summary.files@.len() != 1 ==> with_count@ == seconds + " · "@ + text::decimal(
                summary.files@.len(),
            ) + " files"@ + tail
        }),
{
    assert(summary.bitrate / 1_000 == kilobits);
    assert(summary.sample_rate / 1_000 == kilohertz);
    let seconds = labels::seconds_text(
        binary64::frame_nanoseconds(summary.frames as nat, summary.sample_rate as nat),
        1,
    ) + "s"@;
    let tail = " · "@ + text::decimal(kilobits) + " kbps MP3 · "@ + text::decimal(kilohertz)
        + " kHz stereo"@;
    assert(without@ =~= seconds + tail);
    if summary.files@.len() == 1 {
        assert(with_count@ =~= seconds + " · "@ + text::decimal(1) + " file"@ + tail);
    } else {
        assert(with_count@ =~= seconds + " · "@ + text::decimal(summary.files@.len()) + " files"@
            + tail);
    }
}

/// A summary has two lines. The first says that nothing was captured, or links to
/// the file or to the session; only a session counts its files.
pub proof fn law_summaries_name_what_was_saved(
    summary: RecordingSummary,
    link: &str,
    lines: Vec<String>,
)
    requires
        call_ensures(summary_lines, (&summary, link), lines),
    ensures
        ({
            let files = summary.files@;
            &&& lines@.len() == 2
            &&& files.len() == 0 ==> lines@[0]@ == "✓ No audio was captured"@
            &&& files.len() == 1 && files[0].kind == SavedFileKind::Recording ==> lines@[0]@
                == "✓ Saved "@ + link@
            &&& files.len() > 1 || (files.len() == 1 && files[0].kind != SavedFileKind::Recording)
                ==> lines@[0]@ == "✓ Saved session "@ + link@ && lines@[1]@ == "  "@ + detail_text(
                summary,
                true,
            )
            &&& files.len() == 0 || (files.len() == 1 && files[0].kind == SavedFileKind::Recording)
                ==> lines@[1]@ == "  "@ + detail_text(summary, false)
        }),
{
    assert(launch::texts(lines@).len() == lines@.len());
    assert(launch::texts(lines@)[0] == lines@[0]@);
    assert(launch::texts(lines@)[1] == lines@[1]@);
}

/// The report of a screen recording tells its bit rates in megabits and kilobits,
/// rounded down, and has a second line only where the start was measured.
pub proof fn law_video_reports_tell_their_rates(
    summary: VideoSummary,
    lines: Vec<String>,
    megabits: nat,
    kilobits: nat,
)
    requires
        call_ensures(video_lines, (&summary,), lines),
        megabits * 1_000_000 <= summary.video_bitrate < (megabits + 1) * 1_000_000,
        kilobits * 1_000 <= summary.audio_bitrate < (kilobits + 1) * 1_000,
    ensures
        lines@.len() == (if summary.recording_ready_ms is Some {
            2nat
        } else {
            1
        }),
        lines@[0]@ == "  "@ + labels::seconds_text(
            binary64::frame_nanoseconds(summary.frames as nat, summary.fps as nat),
            1,
        ) + "s · "@ + text::decimal(summary.width as nat) + "x"@ + text::decimal(
            summary.height as nat,
        ) + " @ "@ + text::decimal(summary.fps as nat) + " fps · H.264 "@ + text::decimal(megabits)
            + " Mbps + AAC "@ + text::decimal(kilobits) + " kbps"@,
        summary.recording_ready_ms matches Some(ready) ==> lines@[1]@ == "  capture ready "@
            + labels::fixed(ready@, 1) + " ms · finalized in "@ + labels::fixed(
            summary.finalize_ms@,
            1,
        ) + " ms"@,
{
    assert(summary.video_bitrate / 1_000_000 == megabits);
    assert(summary.audio_bitrate / 1_000 == kilobits);
    assert(launch::texts(lines@).len() == lines@.len());
    assert(launch::texts(lines@)[0] == lines@[0]@);
    if lines@.len() > 1 {
        assert(launch::texts(lines@)[1] == lines@[1]@);
    }
}

/// A diagnosis tells the same three lines of audio whether the screen can be
/// captured or not. The lines of a success start with a check mark, and the one
/// of a failure ends with its error.
pub proof fn law_diagnoses_tell_audio_and_screen(
    error: &str,
    good: Vec<String>,
    bad: Vec<String>,
)
    requires
        call_ensures(doctor_lines, (None::<&str>,), good),
        call_ensures(doctor_lines, (Some(error),), bad),
    ensures
        good@.len() == 5,
        bad@.len() == 4,
        forall|i: int| 0 <= i < 3 ==> (#[trigger] good@[i])@ == bad@[i]@,
        forall|i: int| 0 <= i < 5 ==> (#[trigger] good@[i])@[0] == '✓',
        bad@[3]@ == "✗ screen capture unavailable: "@ + error@,
{
    reveal_strlit("✓ default Windows output found");
    reveal_strlit("✓ WASAPI loopback available");
    reveal_strlit("✓ native Media Foundation MP3 encoder available");
    reveal_strlit("✓ D3D11 device with desktop duplication available");
    reveal_strlit("✓ native Media Foundation H.264 and AAC encoders available");
    assert(launch::texts(good@).len() == good@.len());
    assert(launch::texts(bad@).len() == bad@.len());
    assert forall|i: int| 0 <= i < 5 implies (#[trigger] good@[i])@ == launch::texts(good@)[i] by {}
    assert forall|i: int| 0 <= i < 4 implies (#[trigger] bad@[i])@ == launch::texts(bad@)[i] by {}
    assert forall|i: int| 0 <= i < 3 implies (#[trigger] good@[i])@ == bad@[i]@ by {
        assert(good@[i]@ == launch::texts(good@)[i] && bad@[i]@ == launch::texts(bad@)[i]);
    }
}

} // verus!
