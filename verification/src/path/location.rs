//! Which texts lead to the same location.
//!
//! A location is a start and the names on the way from there. Repeated and final
//! separators do not count, and neither does a `.` behind the first name. With
//! the separator `\`, a `/` separates names too, and the location can start with
//! the letter of a drive, whose case does not count.
use vstd::prelude::*;

use crate::text;
use crate::text::{characters, same_characters, slice, to_ascii_upper};

verus! {

/// The parts of a location that count.
pub struct Location {
    /// The letter of the drive, in capital form.
    pub drive: Option<char>,
    /// The separators at the start: none, one, or at least two. Only locations
    /// with the separator `\` tell one from two.
    pub lead: nat,
    /// Whether the first name is `.`.
    pub current: bool,
    /// The names on the way.
    pub names: Seq<Seq<char>>,
}

/// Whether a character separates names.
pub open spec fn is_separator(character: char, separator: char) -> bool {
    character == separator || (separator == '\\' && character == '/')
}

/// Whether a text starts with the letter of a drive.
pub open spec fn has_drive(text: Seq<char>, separator: char) -> bool {
    &&& separator == '\\'
    &&& text.len() >= 2
    &&& 'A' <= text::ascii_upper(text[0]) <= 'Z'
    &&& text[1] == ':'
}

/// The pieces between the separators.
pub open spec fn pieces(text: Seq<char>, separator: char) -> Seq<Seq<char>>
    decreases text.len(),
{
    if text.len() == 0 {
        seq![Seq::empty()]
    } else {
        let front = pieces(text.drop_last(), separator);
        if is_separator(text.last(), separator) {
            front.push(Seq::empty())
        } else {
            front.drop_last().push(front.last().push(text.last()))
        }
    }
}

/// Whether a piece is a name on the way.
pub open spec fn is_step(piece: Seq<char>) -> bool {
    piece.len() > 0 && piece != seq!['.']
}

/// The names on the way.
pub open spec fn steps(text: Seq<char>, separator: char) -> Seq<Seq<char>> {
    pieces(text, separator).filter(|piece: Seq<char>| is_step(piece))
}

/// The location behind the drive.
pub open spec fn location_behind(
    drive: Option<char>,
    rest: Seq<char>,
    separator: char,
) -> Location {
    Location {
        drive,
        lead: if rest.len() == 0 || !is_separator(rest[0], separator) {
            0
        } else if separator == '\\' && rest.len() >= 2 && is_separator(rest[1], separator) {
            2
        } else {
            1
        },
        current: rest.len() >= 1 && rest[0] == '.' && (rest.len() == 1 || is_separator(
            rest[1],
            separator,
        )),
        names: steps(rest, separator),
    }
}

/// The location that a text leads to.
pub open spec fn location(text: Seq<char>, separator: char) -> Location {
    if has_drive(text, separator) {
        location_behind(Some(text::ascii_upper(text[0])), text.skip(2), separator)
    } else {
        location_behind(None, text, separator)
    }
}

/// Reports whether a character separates names.
pub fn separates(character: char, separator: char) -> (result: bool)
    ensures
        result == is_separator(character, separator),
{
    character == separator || (separator == '\\' && character == '/')
}

/// Reports whether a text starts with the letter of a drive.
pub fn starts_with_drive(letters: &Vec<char>, separator: char) -> (result: bool)
    ensures
        result == has_drive(letters@, separator),
{
    if separator != '\\' || letters.len() < 2 {
        return false;
    }
    let letter = to_ascii_upper(letters[0]);
    'A' <= letter && letter <= 'Z' && letters[1] == ':'
}

/// The texts of names.
pub open spec fn spelled(names: Seq<Vec<char>>) -> Seq<Seq<char>> {
    Seq::new(names.len(), |i: int| names[i]@)
}

/// Adds a piece where it is a name on the way.
fn push_step(names: &mut Vec<Vec<char>>, piece: Vec<char>)
    ensures
        spelled(final(names)@) == (if is_step(piece@) {
            spelled(old(names)@).push(piece@)
        } else {
            spelled(old(names)@)
        }),
{
    let ghost before = names@;
    let length: usize = piece.len();
    let dot = length == 1 && piece[0] == '.';
    proof {
        if dot {
            assert(piece@ =~= seq!['.']);
        }
        assert(seq!['.'][0] == '.');
    }
    if length > 0 && !dot {
        names.push(piece);
        proof {
            assert(spelled(names@) =~= spelled(before).push(piece@));
        }
    }
}

/// Returns the names on the way.
fn names_of(letters: &Vec<char>, separator: char) -> (names: Vec<Vec<char>>)
    ensures
        spelled(names@) == steps(letters@, separator),
{
    let mut names: Vec<Vec<char>> = Vec::new();
    let mut piece: Vec<char> = Vec::new();
    let mut index: usize = 0;
    let ghost kept = |piece: Seq<char>| is_step(piece);
    proof {
        reveal(Seq::filter);
        assert(letters@.take(0) =~= Seq::<char>::empty());
        let start = pieces(letters@.take(0), separator);
        assert(piece@ =~= Seq::<char>::empty());
        assert(start.drop_last() =~= Seq::<Seq<char>>::empty());
        assert(spelled(names@) =~= start.drop_last().filter(kept));
    }
    while index < letters.len()
        invariant
            index <= letters.len(),
            kept == (|piece: Seq<char>| is_step(piece)),
            ({
                let so_far = pieces(letters@.take(index as int), separator);
                &&& so_far.len() >= 1
                &&& so_far.last() == piece@
                &&& spelled(names@) == so_far.drop_last().filter(kept)
            }),
        decreases letters.len() - index,
    {
        let letter = letters[index];
        proof {
            reveal(Seq::filter);
            let so_far = pieces(letters@.take(index as int), separator);
            let longer = letters@.take(index + 1);
            assert(longer.drop_last() =~= letters@.take(index as int));
            assert(longer.last() == letter);
            if is_separator(letter, separator) {
                assert(pieces(longer, separator).drop_last() =~= so_far);
            } else {
                assert(pieces(longer, separator).drop_last() =~= so_far.drop_last());
            }
        }
        if separates(letter, separator) {
            push_step(&mut names, piece);
            piece = Vec::new();
            proof {
                assert(piece@ =~= Seq::<char>::empty());
            }
        } else {
            piece.push(letter);
        }
        index += 1;
    }
    proof {
        reveal(Seq::filter);
        assert(letters@.take(letters@.len() as int) =~= letters@);
    }
    push_step(&mut names, piece);
    names
}

/// Reports whether two ways have the same names.
fn same_names(left: &Vec<Vec<char>>, right: &Vec<Vec<char>>) -> (same: bool)
    ensures
        same == (spelled(left@) == spelled(right@)),
{
    if left.len() != right.len() {
        proof {
            assert(spelled(left@).len() != spelled(right@).len());
        }
        return false;
    }
    let mut index: usize = 0;
    while index < left.len()
        invariant
            index <= left.len(),
            left.len() == right.len(),
            forall|i: int| 0 <= i < index ==> (#[trigger] left@[i])@ == right@[i]@,
        decreases left.len() - index,
    {
        if !same_characters(&left[index], &right[index]) {
            proof {
                assert(spelled(left@)[index as int] != spelled(right@)[index as int]);
            }
            return false;
        }
        index += 1;
    }
    proof {
        assert(spelled(left@) =~= spelled(right@));
    }
    true
}

/// Returns the number of separators at the start that count.
fn lead_of(rest: &Vec<char>, separator: char) -> (lead: u8)
    ensures
        lead == location_behind(None, rest@, separator).lead,
{
    if rest.len() == 0 || !separates(rest[0], separator) {
        0
    } else if separator == '\\' && rest.len() >= 2 && separates(rest[1], separator) {
        2
    } else {
        1
    }
}

/// Reports whether the first name is `.`.
fn starts_current(rest: &Vec<char>, separator: char) -> (current: bool)
    ensures
        current == location_behind(None, rest@, separator).current,
{
    rest.len() >= 1 && rest[0] == '.' && (rest.len() == 1 || separates(rest[1], separator))
}

/// Takes the letter of a drive off a text.
fn without_drive(letters: &Vec<char>, separator: char) -> (parts: (Option<char>, Vec<char>))
    ensures
        location(letters@, separator) == location_behind(parts.0, parts.1@, separator),
{
    if starts_with_drive(letters, separator) {
        let rest = slice(letters, 2, letters.len());
        proof {
            assert(rest@ =~= letters@.skip(2));
        }
        (Some(to_ascii_upper(letters[0])), rest)
    } else {
        let rest = slice(letters, 0, letters.len());
        proof {
            assert(rest@ =~= letters@);
        }
        (None, rest)
    }
}

/// Reports whether two texts lead to the same location.
pub fn same_location(left: &str, right: &str, separator: char) -> (same: bool)
    ensures
        same == (location(left@, separator) == location(right@, separator)),
{
    let (left_drive, left_rest) = without_drive(&characters(left), separator);
    let (right_drive, right_rest) = without_drive(&characters(right), separator);
    let same_drive = match (left_drive, right_drive) {
        (None, None) => true,
        (Some(one), Some(other)) => one == other,
        _ => false,
    };
    same_drive && lead_of(&left_rest, separator) == lead_of(&right_rest, separator)
        && starts_current(&left_rest, separator) == starts_current(&right_rest, separator)
        && same_names(&names_of(&left_rest, separator), &names_of(&right_rest, separator))
}

/// Repeated and final separators do not count, and neither does a `.` behind
/// another piece: a piece that is no name leads nowhere.
pub proof fn law_empty_pieces_lead_nowhere(text: Seq<char>, separator: char)
    requires
        text.len() > 0,
        is_separator(text.last(), separator),
        !is_separator('.', separator),
    ensures
        steps(text.push(separator), separator) == steps(text, separator),
        steps(text.push('.'), separator) == steps(text, separator),
{
    reveal(Seq::filter);
    let front = pieces(text.drop_last(), separator);
    let all = pieces(text, separator);
    assert(all.last() == Seq::<char>::empty());
    assert(all.drop_last() =~= front);
    assert(text.push(separator).drop_last() =~= text);
    assert(text.push('.').drop_last() =~= text);
    let longer = pieces(text.push(separator), separator);
    assert(longer.drop_last() =~= all);
    let dotted = pieces(text.push('.'), separator);
    assert(dotted.drop_last() =~= front);
    assert(dotted.last() =~= seq!['.']);
}

/// Every text leads to the same location as itself, and the order of two texts
/// does not matter.
pub proof fn law_locations_are_compared_both_ways(
    left: &str,
    right: &str,
    separator: char,
    same: bool,
    other: bool,
    itself: bool,
)
    requires
        call_ensures(same_location, (left, right, separator), same),
        call_ensures(same_location, (right, left, separator), other),
        call_ensures(same_location, (left, left, separator), itself),
    ensures
        same == other,
        itself,
{
}

/// A further separator behind a separator, and a `.` behind it, lead to the same
/// location. A further name leads to another one.
pub proof fn law_further_names_lead_elsewhere(
    front: Seq<char>,
    name: Seq<char>,
    separator: char,
)
    requires
        front.len() > 0,
        is_separator(front.last(), separator),
        name.len() > 0,
        name != seq!['.'],
        forall|i: int| 0 <= i < name.len() ==> !is_separator(#[trigger] name[i], separator),
    ensures
        steps(front + name, separator) == steps(front, separator).push(name),
{
    reveal(Seq::filter);
    lemma_last_step(front, name, separator);
    let before = pieces(front.drop_last(), separator);
    let all = pieces(front, separator);
    assert(all.drop_last() =~= before);
    let kept = |piece: Seq<char>| is_step(piece);
    assert(pieces(front + name, separator) =~= before.push(name));
    assert(before.push(name).drop_last() =~= before);
    assert(all.last() == Seq::<char>::empty());
    assert(before.push(name).filter(kept) == before.filter(kept).push(name));
    assert(all.filter(kept) == before.filter(kept));
}

/// The letters behind a separator are the last piece.
proof fn lemma_last_step(front: Seq<char>, name: Seq<char>, separator: char)
    requires
        front.len() > 0,
        is_separator(front.last(), separator),
        forall|i: int| 0 <= i < name.len() ==> !is_separator(#[trigger] name[i], separator),
    ensures
        pieces(front + name, separator) == pieces(front.drop_last(), separator).push(name),
    decreases name.len(),
{
    let whole = front + name;
    if name.len() == 0 {
        assert(whole =~= front);
        assert(name =~= Seq::<char>::empty());
    } else {
        let shorter = name.drop_last();
        assert forall|i: int| 0 <= i < shorter.len() implies !is_separator(
            #[trigger] shorter[i],
            separator,
        ) by {
            assert(shorter[i] == name[i]);
        }
        lemma_last_step(front, shorter, separator);
        assert(whole.drop_last() =~= front + shorter);
        assert(whole.last() == name[name.len() - 1]);
        assert(shorter.push(name.last()) =~= name);
        let before = pieces(front.drop_last(), separator).push(shorter);
        assert(before.drop_last() =~= pieces(front.drop_last(), separator));
        assert(before.last() == shorter);
    }
}

/// On Windows both slashes separate names, and elsewhere only the separator does.
pub proof fn law_separators_depend_on_the_system(character: char, separator: char, result: bool)
    requires
        call_ensures(separates, (character, separator), result),
    ensures
        separator == '\\' ==> (result <==> character == '\\' || character == '/'),
        separator == '/' ==> (result <==> character == '/'),
{
}

/// A drive is a letter with a colon behind it, and only Windows has drives.
pub proof fn law_drives_are_letters(letters: Vec<char>, separator: char, result: bool)
    requires
        call_ensures(starts_with_drive, (&letters, separator), result),
    ensures
        result <==> separator == '\\' && letters@.len() >= 2 && letters@[1] == ':' && (('a'
            <= letters@[0] && letters@[0] <= 'z') || ('A' <= letters@[0] && letters@[0] <= 'Z')),
{
}

/// The case of the letter of a drive does not count.
pub proof fn law_drives_have_no_case(small: char, rest: Seq<char>)
    requires
        'a' <= small <= 'z',
    ensures
        location(seq![small, ':'] + rest, '\\') == location(
            seq![text::ascii_upper(small), ':'] + rest,
            '\\',
        ),
{
    let one = seq![small, ':'] + rest;
    let other = seq![text::ascii_upper(small), ':'] + rest;
    assert(one.skip(2) =~= rest);
    assert(other.skip(2) =~= rest);
}

/// Different drives, and a drive and none, lead to different locations.
pub proof fn law_drives_tell_locations_apart(one: char, other: char, rest: Seq<char>)
    requires
        'A' <= one <= 'Z',
        'A' <= other <= 'Z',
        one != other,
    ensures
        location(seq![one, ':'] + rest, '\\') != location(seq![other, ':'] + rest, '\\'),
        location(seq![one, ':'] + rest, '\\') != location(seq!['\\'] + rest, '\\'),
{
    let first = location(seq![one, ':'] + rest, '\\');
    let second = location(seq![other, ':'] + rest, '\\');
    let third = location(seq!['\\'] + rest, '\\');
    assert(first.drive == Some(one) && second.drive == Some(other));
    assert((seq!['\\'] + rest)[0] == '\\');
    assert(third.drive is None);
}

/// The root is another place than the current folder, and on Windows a share is
/// another place than the root. Elsewhere repeated separators do not count.
pub proof fn law_roots_tell_locations_apart(name: Seq<char>)
    requires
        name.len() > 0,
        name[0] != '/' && name[0] != '\\' && name[0] != '.',
        name.len() < 2 || name[1] != ':',
    ensures
        location(seq!['/'] + name, '/') != location(name, '/'),
        location(seq!['/', '/'] + name, '/').lead == location(seq!['/'] + name, '/').lead,
        location(seq!['\\', '\\'] + name, '\\') != location(seq!['\\'] + name, '\\'),
        location(seq!['\\'] + name, '\\') != location(name, '\\'),
{
    assert(location(seq!['/'] + name, '/').lead == 1);
    assert(location(name, '/').lead == 0);
    assert((seq!['\\'] + name)[1] == name[0]);
    assert((seq!['\\', '\\'] + name)[1] == '\\');
    assert(location(seq!['\\', '\\'] + name, '\\').lead == 2);
    assert(location(seq!['\\'] + name, '\\').lead == 1);
    assert(location(name, '\\').lead == 0);
}

/// A `.` counts at the start of a location, and only there.
pub proof fn law_leading_dots_count(name: Seq<char>)
    requires
        name.len() > 0,
        name[0] != '.' && name[0] != '/',
    ensures
        location(seq!['.', '/'] + name, '/') != location(name, '/'),
        location(seq!['.', '/'] + name, '/').lead == location(name, '/').lead,
{
    assert(location(seq!['.', '/'] + name, '/').current);
    assert(!location(name, '/').current);
}

} // verus!
