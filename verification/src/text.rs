//! Text building blocks shared by every module.
//!
//! A string is viewed as its sequence of characters. The functions here turn
//! that view into executable work: splitting a string into characters, putting
//! characters back together, writing decimal numbers, and comparing text
//! without regard to ASCII case.
use vstd::prelude::*;

verus! {

/// `String::push` appends one character to the end of the string.
pub assume_specification[ String::push ](buffer: &mut String, character: char)
    ensures
        final(buffer)@ == old(buffer)@.push(character),
;

/// `String::pop` removes the last character and returns it, or returns `None`
/// and leaves the string alone when the string is empty.
pub assume_specification[ String::pop ](buffer: &mut String) -> (last: Option<char>)
    ensures
        old(buffer)@.len() == 0 ==> last is None && final(buffer)@ == old(buffer)@,
        old(buffer)@.len() > 0 ==> last == Some(old(buffer)@.last()) && final(buffer)@
            == old(buffer)@.drop_last(),
;

/// The character for one decimal digit.
pub open spec fn digit_char(digit: nat) -> char
    recommends
        digit < 10,
{
    (48 + digit) as char
}

/// The decimal form of a number, without leading zeros.
pub open spec fn decimal(number: nat) -> Seq<char>
    decreases number,
{
    if number < 10 {
        seq![digit_char(number)]
    } else {
        decimal(number / 10).push(digit_char(number % 10))
    }
}

/// `count` copies of the character zero.
pub open spec fn zeros(count: nat) -> Seq<char> {
    Seq::new(count, |i: int| '0')
}

/// The decimal form of a number with zeros in front up to a minimum width.
pub open spec fn padded(number: nat, width: nat) -> Seq<char> {
    let digits = decimal(number);
    if digits.len() < width {
        zeros((width - digits.len()) as nat) + digits
    } else {
        digits
    }
}

/// Splits a string into its characters.
pub fn characters(text: &str) -> (result: Vec<char>)
    ensures
        result@ == text@,
{
    let mut result: Vec<char> = Vec::new();
    for character in iter: text.chars()
        invariant
            result@.len() == iter.index(),
            iter.seq() == text@,
            result@ == text@.take(iter.index() as int),
    {
        result.push(character);
    }
    proof {
        assert(text@.take(text@.len() as int) =~= text@);
    }
    result
}

/// Puts characters back together into a string.
pub fn string_of(characters: &Vec<char>) -> (text: String)
    ensures
        text@ == characters@,
{
    let mut text = String::new();
    let mut index: usize = 0;
    while index < characters.len()
        invariant
            index <= characters.len(),
            text@ == characters@.take(index as int),
        decreases characters.len() - index,
    {
        text.push(characters[index]);
        index += 1;
        proof {
            assert(characters@.take(index as int) =~= characters@.take(index - 1).push(
                characters@[index - 1],
            ));
        }
    }
    proof {
        assert(characters@.take(characters@.len() as int) =~= characters@);
    }
    text
}

/// Appends characters to a string.
pub fn push_characters(text: &mut String, characters: &Vec<char>)
    ensures
        final(text)@ == old(text)@ + characters@,
{
    let mut index: usize = 0;
    while index < characters.len()
        invariant
            index <= characters.len(),
            text@ == old(text)@ + characters@.take(index as int),
        decreases characters.len() - index,
    {
        text.push(characters[index]);
        index += 1;
        proof {
            assert(text@ =~= old(text)@ + characters@.take(index as int));
        }
    }
    proof {
        assert(characters@.take(characters@.len() as int) =~= characters@);
    }
}

/// Copies the characters from `start` up to, but not including, `end`.
pub fn slice(characters: &Vec<char>, start: usize, end: usize) -> (result: Vec<char>)
    requires
        start <= end <= characters.len(),
    ensures
        result@ == characters@.subrange(start as int, end as int),
{
    let mut result: Vec<char> = Vec::new();
    let mut index: usize = start;
    while index < end
        invariant
            start <= index <= end <= characters.len(),
            result@ == characters@.subrange(start as int, index as int),
        decreases end - index,
    {
        result.push(characters[index]);
        index += 1;
        proof {
            assert(result@ =~= characters@.subrange(start as int, index as int));
        }
    }
    result
}

/// Returns the decimal digits of a number, without leading zeros.
fn digits(number: u128) -> (result: Vec<char>)
    ensures
        result@ == decimal(number as nat),
    decreases number,
{
    let digit: u8 = (number % 10) as u8;
    let mut result: Vec<char> = if number < 10 {
        Vec::new()
    } else {
        digits(number / 10)
    };
    let code: u8 = 48 + digit;
    result.push(code as char);
    proof {
        assert(result@ =~= decimal(number as nat));
    }
    result
}

/// Appends a number in decimal, without leading zeros.
pub fn push_decimal(text: &mut String, number: u64)
    ensures
        final(text)@ == old(text)@ + decimal(number as nat),
{
    let result = digits(number as u128);
    push_characters(text, &result);
}

/// Appends a number of up to two machine words in decimal, without leading zeros.
pub fn push_wide_decimal(text: &mut String, number: u128)
    ensures
        final(text)@ == old(text)@ + decimal(number as nat),
{
    let result = digits(number);
    push_characters(text, &result);
}

/// Appends a number in decimal with zeros in front up to a minimum width.
pub fn push_padded(text: &mut String, number: u64, width: usize)
    ensures
        final(text)@ == old(text)@ + padded(number as nat, width as nat),
{
    let result = digits(number as u128);
    let mut fill: usize = result.len();
    while fill < width
        invariant
            result.len() <= fill,
            fill <= width || fill == result.len(),
            text@ == old(text)@ + zeros((fill - result.len()) as nat),
        decreases width - fill,
    {
        text.push('0');
        fill += 1;
        proof {
            assert(text@ =~= old(text)@ + zeros((fill - result.len()) as nat));
        }
    }
    proof {
        assert(zeros(0) =~= Seq::<char>::empty());
        assert(old(text)@ + Seq::<char>::empty() =~= old(text)@);
    }
    push_characters(text, &result);
    proof {
        assert(text@ =~= old(text)@ + padded(number as nat, width as nat));
    }
}

/// The position of the first occurrence of a character.
pub open spec fn first_position(text: Seq<char>, character: char) -> Option<nat>
    decreases text.len(),
{
    if text.len() == 0 {
        None
    } else {
        match first_position(text.drop_last(), character) {
            Some(position) => Some(position),
            None => if text.last() == character {
                Some((text.len() - 1) as nat)
            } else {
                None
            },
        }
    }
}

/// The position of the last occurrence of a character.
pub open spec fn last_position(text: Seq<char>, character: char) -> Option<nat>
    decreases text.len(),
{
    if text.len() == 0 {
        None
    } else if text.last() == character {
        Some((text.len() - 1) as nat)
    } else {
        last_position(text.drop_last(), character)
    }
}

/// The first occurrence is at the reported position, and nowhere in front of it.
pub proof fn lemma_first_position(text: Seq<char>, character: char)
    ensures
        match first_position(text, character) {
            Some(position) => position < text.len() && text[position as int] == character
                && forall|i: int| 0 <= i < position ==> text[i] != character,
            None => forall|i: int| 0 <= i < text.len() ==> text[i] != character,
        },
    decreases text.len(),
{
    if text.len() > 0 {
        lemma_first_position(text.drop_last(), character);
        let front = text.drop_last();
        assert forall|i: int| 0 <= i < front.len() implies front[i] == text[i] by {}
    }
}

/// Finds the first occurrence of a character.
pub fn find_first(text: &Vec<char>, character: char) -> (position: Option<usize>)
    ensures
        position is Some == first_position(text@, character) is Some,
        position is Some ==> position->0 == first_position(text@, character)->0
            && position->0 < text.len(),
{
    proof {
        lemma_first_position(text@, character);
    }
    let mut index: usize = 0;
    while index < text.len()
        invariant
            index <= text.len(),
            forall|i: int| 0 <= i < index ==> text@[i] != character,
            match first_position(text@, character) {
                Some(position) => position < text.len() && text@[position as int] == character
                    && forall|i: int| 0 <= i < position ==> text@[i] != character,
                None => forall|i: int| 0 <= i < text@.len() ==> text@[i] != character,
            },
        decreases text.len() - index,
    {
        if text[index] == character {
            return Some(index);
        }
        index += 1;
    }
    None
}

/// Finds the last occurrence of a character.
pub fn find_last(text: &Vec<char>, character: char) -> (position: Option<usize>)
    ensures
        position is Some == last_position(text@, character) is Some,
        position is Some ==> position->0 == last_position(text@, character)->0 && position->0
            < text.len(),
{
    let mut index: usize = text.len();
    proof {
        assert(text@.take(index as int) =~= text@);
    }
    while index > 0
        invariant
            index <= text.len(),
            last_position(text@, character) == last_position(text@.take(index as int), character),
        decreases index,
    {
        let ghost front = text@.take(index as int);
        if text[index - 1] == character {
            return Some(index - 1);
        }
        index -= 1;
        proof {
            assert(front.drop_last() =~= text@.take(index as int));
        }
    }
    None
}

/// The capital form of an ASCII letter; every other character stays.
pub open spec fn ascii_upper(character: char) -> char {
    if 'a' <= character && character <= 'z' {
        (character as int - 32) as char
    } else {
        character
    }
}

/// The capital form of every ASCII letter in a text.
pub open spec fn upper(text: Seq<char>) -> Seq<char> {
    Seq::new(text.len(), |i: int| ascii_upper(text[i]))
}

/// Whether two texts are equal up to ASCII case.
pub open spec fn same_ignoring_case(left: Seq<char>, right: Seq<char>) -> bool {
    upper(left) == upper(right)
}

/// Returns the capital form of an ASCII letter, and every other character as it is.
pub fn to_ascii_upper(character: char) -> (result: char)
    ensures
        result == ascii_upper(character),
{
    if 'a' <= character && character <= 'z' {
        let code: u8 = character as u8;
        (code - 32) as char
    } else {
        character
    }
}

/// Returns the text with every ASCII letter as a capital.
pub fn to_upper(text: &Vec<char>) -> (result: Vec<char>)
    ensures
        result@ == upper(text@),
{
    let mut result: Vec<char> = Vec::new();
    let mut index: usize = 0;
    while index < text.len()
        invariant
            index <= text.len(),
            result@.len() == index,
            forall|i: int| 0 <= i < index ==> result@[i] == ascii_upper(text@[i]),
        decreases text.len() - index,
    {
        result.push(to_ascii_upper(text[index]));
        index += 1;
    }
    proof {
        assert(result@ =~= upper(text@));
    }
    result
}

/// Reports whether two character sequences are equal.
pub fn same_characters(left: &Vec<char>, right: &Vec<char>) -> (same: bool)
    ensures
        same == (left@ == right@),
{
    if left.len() != right.len() {
        return false;
    }
    let mut index: usize = 0;
    while index < left.len()
        invariant
            index <= left.len(),
            left.len() == right.len(),
            forall|i: int| 0 <= i < index ==> left@[i] == right@[i],
        decreases left.len() - index,
    {
        if left[index] != right[index] {
            return false;
        }
        index += 1;
    }
    proof {
        assert(left@ =~= right@);
    }
    true
}

/// Reports whether characters spell the given text.
pub fn spells(letters: &Vec<char>, word: &str) -> (same: bool)
    ensures
        same == (letters@ == word@),
{
    let other = characters(word);
    same_characters(letters, &other)
}

/// Reports whether characters spell the given text up to ASCII case.
pub fn spells_ignoring_case(letters: &Vec<char>, word: &str) -> (same: bool)
    ensures
        same == same_ignoring_case(letters@, word@),
{
    let other = characters(word);
    let left = to_upper(letters);
    let right = to_upper(&other);
    same_characters(&left, &right)
}

/// Characters with the Unicode `White_Space` property.
pub open spec fn is_white_space(character: char) -> bool {
    let code = character as int;
    ||| 0x9 <= code <= 0xD
    ||| code == 0x20
    ||| code == 0x85
    ||| code == 0xA0
    ||| code == 0x1680
    ||| 0x2000 <= code <= 0x200A
    ||| code == 0x2028
    ||| code == 0x2029
    ||| code == 0x202F
    ||| code == 0x205F
    ||| code == 0x3000
}

/// Characters of the Unicode general category `Cc`.
pub open spec fn is_control(character: char) -> bool {
    character as int <= 0x1F || 0x7F <= character as int <= 0x9F
}

/// Reports whether a character is white space.
pub fn white_space(character: char) -> (result: bool)
    ensures
        result == is_white_space(character),
{
    let code: u32 = character as u32;
    (0x9 <= code && code <= 0xD) || code == 0x20 || code == 0x85 || code == 0xA0 || code == 0x1680
        || (0x2000 <= code && code <= 0x200A) || code == 0x2028 || code == 0x2029 || code == 0x202F
        || code == 0x205F || code == 0x3000
}

/// Reports whether a character is a control character.
pub fn control(character: char) -> (result: bool)
    ensures
        result == is_control(character),
{
    let code: u32 = character as u32;
    code <= 0x1F || (0x7F <= code && code <= 0x9F)
}

/// The text without white space at its start.
pub open spec fn trim_start(text: Seq<char>) -> Seq<char>
    decreases text.len(),
{
    if text.len() > 0 && is_white_space(text.first()) {
        trim_start(text.drop_first())
    } else {
        text
    }
}

/// The text without white space at its end.
pub open spec fn trim_end(text: Seq<char>) -> Seq<char>
    decreases text.len(),
{
    if text.len() > 0 && is_white_space(text.last()) {
        trim_end(text.drop_last())
    } else {
        text
    }
}

/// The text without white space at either end.
pub open spec fn trim(text: Seq<char>) -> Seq<char> {
    trim_end(trim_start(text))
}

/// Returns the characters without white space at either end.
pub fn trimmed(text: &Vec<char>) -> (result: Vec<char>)
    ensures
        result@ == trim(text@),
{
    let mut start: usize = 0;
    proof {
        assert(text@.skip(0) =~= text@);
    }
    while start < text.len() && white_space(text[start])
        invariant
            start <= text.len(),
            trim_start(text@) == trim_start(text@.skip(start as int)),
        decreases text.len() - start,
    {
        proof {
            assert(text@.skip(start as int).drop_first() =~= text@.skip(start + 1));
        }
        start += 1;
    }
    proof {
        assert(trim_start(text@) =~= text@.skip(start as int));
    }
    let mut end: usize = text.len();
    proof {
        assert(text@.subrange(start as int, end as int) =~= text@.skip(start as int));
    }
    while end > start && white_space(text[end - 1])
        invariant
            start <= end <= text.len(),
            trim(text@) == trim_end(text@.subrange(start as int, end as int)),
        decreases end - start,
    {
        proof {
            assert(text@.subrange(start as int, end as int).drop_last() =~= text@.subrange(
                start as int,
                end - 1,
            ));
        }
        end -= 1;
    }
    slice(text, start, end)
}

/// The number that decimal digits spell.
pub open spec fn number_of(digits: Seq<char>) -> int
    decreases digits.len(),
{
    if digits.len() == 0 {
        0
    } else {
        number_of(digits.drop_last()) * 10 + (digits.last() as int - 48)
    }
}

/// The decimal form of a number spells that number.
pub proof fn lemma_decimal_spells(number: nat)
    ensures
        number_of(decimal(number)) == number,
        decimal(number).len() > 0,
        forall|i: int| 0 <= i < decimal(number).len() ==> '0' <= #[trigger] decimal(number)[i] <= '9',
    decreases number,
{
    reveal_with_fuel(number_of, 2);
    if number < 10 {
        assert(decimal(number).drop_last() =~= Seq::<char>::empty());
    } else {
        lemma_decimal_spells(number / 10);
        assert(decimal(number).drop_last() =~= decimal(number / 10));
    }
}

/// Zeros in front do not change the number that digits spell.
proof fn lemma_zeros_spell_nothing(count: nat, digits: Seq<char>)
    ensures
        number_of(zeros(count) + digits) == number_of(digits),
    decreases count + digits.len(),
{
    let whole = zeros(count) + digits;
    if digits.len() > 0 {
        lemma_zeros_spell_nothing(count, digits.drop_last());
        assert(whole.drop_last() =~= zeros(count) + digits.drop_last());
    } else if count > 0 {
        lemma_zeros_spell_nothing((count - 1) as nat, digits);
        assert(whole.drop_last() =~= zeros((count - 1) as nat) + digits);
        assert(whole.last() == '0');
    }
}

/// A padded number spells the number.
pub proof fn lemma_padded_spells(number: nat, width: nat)
    ensures
        number_of(padded(number, width)) == number,
{
    lemma_decimal_spells(number);
    let digits = decimal(number);
    if digits.len() < width {
        lemma_zeros_spell_nothing((width - digits.len()) as nat, digits);
    }
}

/// Texts that differ only in a middle piece are equal only when the pieces are.
pub proof fn lemma_middle_piece(front: Seq<char>, left: Seq<char>, right: Seq<char>, back: Seq<char>)
    requires
        front + left + back == front + right + back,
    ensures
        left == right,
{
    let whole = front + left + back;
    let other = front + right + back;
    assert(whole.len() == front.len() + left.len() + back.len());
    assert(other.len() == front.len() + right.len() + back.len());
    assert forall|i: int| 0 <= i < left.len() implies left[i] == right[i] by {
        assert(whole[front.len() + i] == left[i]);
        assert(other[front.len() + i] == right[i]);
    }
    assert(left =~= right);
}

/// The pieces of a text between the occurrences of a separator. A text without
/// the separator is one piece.
pub open spec fn pieces(text: Seq<char>, separator: char) -> Seq<Seq<char>>
    decreases text.len(),
{
    if text.len() == 0 {
        seq![Seq::empty()]
    } else {
        let front = pieces(text.drop_last(), separator);
        if text.last() == separator {
            front.push(Seq::empty())
        } else {
            front.drop_last().push(front.last().push(text.last()))
        }
    }
}

/// There is always a piece, even in an empty text.
proof fn lemma_there_are_pieces(text: Seq<char>, separator: char)
    ensures
        pieces(text, separator).len() > 0,
    decreases text.len(),
{
    if text.len() > 0 {
        lemma_there_are_pieces(text.drop_last(), separator);
    }
}

/// The characters of each piece.
pub open spec fn piece_views(parts: Seq<Vec<char>>) -> Seq<Seq<char>> {
    parts.map_values(|part: Vec<char>| part@)
}

/// Splits characters at every occurrence of a separator.
pub fn split(text: &Vec<char>, separator: char) -> (parts: Vec<Vec<char>>)
    ensures
        piece_views(parts@) == pieces(text@, separator),
{
    let mut done: Vec<Vec<char>> = Vec::new();
    let mut open: Vec<char> = Vec::new();
    let mut index: usize = 0;
    proof {
        assert(text@.take(0) =~= Seq::<char>::empty());
        assert(piece_views(done@).push(open@) =~= pieces(text@.take(0), separator));
    }
    while index < text.len()
        invariant
            index <= text.len(),
            piece_views(done@).push(open@) == pieces(text@.take(index as int), separator),
        decreases text.len() - index,
    {
        let ghost before = text@.take(index as int);
        let ghost after = text@.take(index + 1);
        let ghost old_done = piece_views(done@);
        proof {
            assert(after.drop_last() =~= before);
            lemma_there_are_pieces(before, separator);
            assert(pieces(before, separator).last() == open@);
            assert(pieces(before, separator).drop_last() =~= old_done);
        }
        if text[index] == separator {
            done.push(open);
            open = Vec::new();
            proof {
                assert(piece_views(done@) =~= pieces(before, separator));
                assert(piece_views(done@).push(open@) =~= pieces(after, separator));
            }
        } else {
            open.push(text[index]);
            proof {
                assert(piece_views(done@).push(open@) =~= pieces(after, separator));
            }
        }
        index += 1;
    }
    proof {
        assert(text@.take(text@.len() as int) =~= text@);
    }
    let ghost front = piece_views(done@);
    let ghost last = open@;
    done.push(open);
    proof {
        assert(piece_views(done@) =~= front.push(last));
    }
    done
}

/// Whether a text consists of decimal digits.
pub open spec fn all_digits(letters: Seq<char>) -> bool {
    forall|i: int| 0 <= i < letters.len() ==> '0' <= #[trigger] letters[i] <= '9'
}

/// A text without the plus sign in front of it, where there is one.
pub open spec fn without_plus(letters: Seq<char>) -> Seq<char> {
    if letters.len() > 0 && letters[0] == '+' {
        letters.skip(1)
    } else {
        letters
    }
}

/// The 32-bit number that a text spells: digits, behind at most one plus sign.
pub open spec fn whole_number(letters: Seq<char>) -> Option<nat> {
    let digits = without_plus(letters);
    if digits.len() > 0 && all_digits(digits) && number_of(digits) <= u32::MAX {
        Some(number_of(digits) as nat)
    } else {
        None
    }
}

/// Reads a 32-bit number.
pub fn read_whole_number(letters: &Vec<char>) -> (number: Option<u32>)
    ensures
        number is Some == whole_number(letters@) is Some,
        number is Some ==> number->0 == whole_number(letters@)->0,
{
    let start: usize = if letters.len() > 0 && letters[0] == '+' {
        1
    } else {
        0
    };
    let ghost digits = letters@.skip(start as int);
    proof {
        assert(letters@.skip(0) =~= letters@);
    }
    if start == letters.len() {
        return None;
    }
    let mut value: u64 = 0;
    let mut index: usize = start;
    proof {
        assert(digits.take(0) =~= Seq::<char>::empty());
    }
    while index < letters.len()
        invariant
            start <= index <= letters.len(),
            digits == letters@.skip(start as int),
            digits == without_plus(letters@),
            all_digits(digits.take(index - start)),
            0 <= number_of(digits.take(index - start)),
            value <= u32::MAX ==> value == number_of(digits.take(index - start)),
            value > u32::MAX ==> number_of(digits.take(index - start)) > u32::MAX && value
                == 0x1_0000_0000,
        decreases letters.len() - index,
    {
        let letter = letters[index];
        proof {
            assert(digits[index - start] == letter);
        }
        if letter < '0' || '9' < letter {
            return None;
        }
        let digit: u64 = letter as u64 - 48;
        let ghost front = digits.take(index - start);
        proof {
            let next = digits.take(index - start + 1);
            assert(next.drop_last() =~= front);
            assert(next.last() == letter);
            assert forall|i: int| 0 <= i < next.len() implies '0' <= #[trigger] next[i] <= '9' by {
                if i < front.len() {
                    assert(front[i] == next[i]);
                }
            }
        }
        if value <= u32::MAX as u64 {
            let next: u64 = value * 10 + digit;
            value = if next <= u32::MAX as u64 {
                next
            } else {
                0x1_0000_0000
            };
        }
        index += 1;
    }
    proof {
        assert(digits.take(digits.len() as int) =~= digits);
    }
    if value <= u32::MAX as u64 {
        Some(value as u32)
    } else {
        None
    }
}

/// The decimal form of a 32-bit number is read as that number.
pub proof fn lemma_decimal_is_read(number: nat)
    requires
        number <= u32::MAX,
    ensures
        whole_number(decimal(number)) == Some(number),
        trim(decimal(number)) == decimal(number),
        all_digits(decimal(number)),
{
    lemma_decimal_spells(number);
    let digits = decimal(number);
    assert('0' <= digits[0] <= '9');
    assert('0' <= digits[digits.len() - 1] <= '9');
    assert(!is_white_space(digits.first()));
    assert(trim_start(digits) == digits);
    assert(!is_white_space(digits.last()));
}

/// A text that follows a separator, without a separator in it, is one more piece.
pub proof fn lemma_last_piece(front: Seq<char>, separator: char, back: Seq<char>)
    requires
        forall|i: int| 0 <= i < back.len() ==> back[i] != separator,
    ensures
        pieces(front.push(separator) + back, separator) == pieces(front, separator).push(back),
    decreases back.len(),
{
    let whole = front.push(separator) + back;
    if back.len() == 0 {
        assert(whole =~= front.push(separator));
        assert(whole.drop_last() =~= front);
        assert(back =~= Seq::<char>::empty());
    } else {
        lemma_last_piece(front, separator, back.drop_last());
        assert(whole.drop_last() =~= front.push(separator) + back.drop_last());
        assert(whole.last() == back.last());
        let before = pieces(front, separator).push(back.drop_last());
        assert(before.drop_last() =~= pieces(front, separator));
        assert(back.drop_last().push(back.last()) =~= back);
    }
}

/// A text without the separator is one piece.
pub proof fn lemma_single_piece(letters: Seq<char>, separator: char)
    requires
        forall|i: int| 0 <= i < letters.len() ==> letters[i] != separator,
    ensures
        pieces(letters, separator) == seq![letters],
    decreases letters.len(),
{
    if letters.len() == 0 {
        assert(letters =~= Seq::<char>::empty());
    } else {
        lemma_single_piece(letters.drop_last(), separator);
        assert(letters.drop_last().push(letters.last()) =~= letters);
        assert(pieces(letters, separator) =~= seq![letters]);
    }
}

/// A number in decimal has no zero in front but the number zero itself, and one
/// more digit for every factor of ten.
pub proof fn law_decimals_have_no_leading_zero(number: nat)
    ensures
        number > 0 ==> decimal(number)[0] != '0',
        number == 0 ==> decimal(number) == seq!['0'],
        number > 0 ==> decimal(10 * number).len() == decimal(number).len() + 1,
    decreases number,
{
    lemma_decimal_spells(number);
    if number >= 10 {
        law_decimals_have_no_leading_zero(number / 10);
        lemma_decimal_spells(number / 10);
    }
    if number > 0 {
        assert((10 * number) / 10 == number);
    }
}

/// A padded number has at least its width, spells the number, and is the plain
/// number where that is wide enough.
pub proof fn law_padded_numbers_have_their_width(number: nat, width: nat)
    ensures
        padded(number, width).len() >= width,
        all_digits(padded(number, width)),
        number_of(padded(number, width)) == number,
        decimal(number).len() >= width ==> padded(number, width) == decimal(number),
        decimal(number).len() < width ==> padded(number, width).len() == width,
{
    lemma_padded_spells(number, width);
    lemma_decimal_spells(number);
    let digits = decimal(number);
    let whole = padded(number, width);
    assert forall|i: int| 0 <= i < whole.len() implies '0' <= #[trigger] whole[i] <= '9' by {
        if digits.len() < width {
            let fill = width - digits.len();
            if i >= fill {
                assert(whole[i] == digits[i - fill]);
            }
        }
    }
}

/// The last occurrence is at the reported position, and nowhere behind it.
pub proof fn law_the_last_position_is_the_last(letters: Seq<char>, character: char)
    ensures
        match last_position(letters, character) {
            Some(position) => position < letters.len() && letters[position as int] == character
                && forall|i: int| position < i < letters.len() ==> letters[i] != character,
            None => forall|i: int| 0 <= i < letters.len() ==> letters[i] != character,
        },
    decreases letters.len(),
{
    if letters.len() > 0 && letters.last() != character {
        let front = letters.drop_last();
        law_the_last_position_is_the_last(front, character);
        assert forall|i: int| 0 <= i < front.len() implies front[i] == letters[i] by {}
    }
}

/// A search from the front reports the first place of a character and a search
/// from the back the last one. Both report nothing only where there is nothing.
pub proof fn law_searches_find_the_outermost(
    letters: Vec<char>,
    character: char,
    first: Option<usize>,
    last: Option<usize>,
)
    requires
        call_ensures(find_first, (&letters, character), first),
        call_ensures(find_last, (&letters, character), last),
    ensures
        first is Some <==> letters@.contains(character),
        last is Some <==> letters@.contains(character),
        first is Some ==> letters@[first->0 as int] == character && forall|i: int|
            0 <= i < first->0 ==> letters@[i] != character,
        last is Some ==> letters@[last->0 as int] == character && forall|i: int|
            last->0 < i < letters@.len() ==> letters@[i] != character,
{
    lemma_first_position(letters@, character);
    law_the_last_position_is_the_last(letters@, character);
}

/// Only the 26 small letters have another capital form, and it lies 32 places in
/// front of them.
pub proof fn law_capitals_stand_for_small_letters(character: char, result: char)
    requires
        call_ensures(to_ascii_upper, (character,), result),
    ensures
        97 <= character as int <= 122 ==> result as int == character as int - 32,
        !(97 <= character as int <= 122) ==> result == character,
{
}

/// Two texts are the same up to case when they have the same length and every
/// pair of characters is the same, or a capital and its small letter.
pub proof fn law_case_is_the_only_difference(left: Seq<char>, right: Seq<char>)
    ensures
        same_ignoring_case(left, right) <==> left.len() == right.len() && forall|i: int|
            0 <= i < left.len() ==> ascii_upper(#[trigger] left[i]) == ascii_upper(right[i]),
{
    if same_ignoring_case(left, right) {
        assert(upper(left).len() == left.len() && upper(right).len() == right.len());
        assert forall|i: int| 0 <= i < left.len() implies ascii_upper(#[trigger] left[i])
            == ascii_upper(right[i]) by {
            assert(upper(left)[i] == upper(right)[i]);
        }
    }
    if left.len() == right.len() && forall|i: int|
        0 <= i < left.len() ==> ascii_upper(#[trigger] left[i]) == ascii_upper(right[i]) {
        assert(upper(left) =~= upper(right));
    }
}

/// Trimming leaves a run of the text without white space at either end, and
/// takes nothing but white space away.
pub proof fn law_trimming_takes_only_white_space(letters: Vec<char>, result: Vec<char>)
    requires
        call_ensures(trimmed, (&letters,), result),
    ensures
        result@.len() > 0 ==> !is_white_space(result@.first()) && !is_white_space(result@.last()),
        exists|front: Seq<char>, back: Seq<char>|
            #[trigger] (front + result@ + back) == letters@ && all_white_space(front)
                && all_white_space(back),
{
    let (front, rest) = lemma_trim_start(letters@);
    let back = lemma_trim_end(rest);
    assert(front + result@ + back =~= letters@);
    if result@.len() > 0 {
        assert(rest.first() == result@.first());
    }
}

/// Whether a text is nothing but white space.
pub open spec fn all_white_space(letters: Seq<char>) -> bool {
    forall|i: int| 0 <= i < letters.len() ==> is_white_space(#[trigger] letters[i])
}

/// The white space in front of a text and the rest of the text.
proof fn lemma_trim_start(letters: Seq<char>) -> (split: (Seq<char>, Seq<char>))
    ensures
        split.1 == trim_start(letters),
        letters == split.0 + split.1,
        all_white_space(split.0),
        split.1.len() > 0 ==> !is_white_space(split.1.first()),
    decreases letters.len(),
{
    if letters.len() > 0 && is_white_space(letters.first()) {
        let (front, rest) = lemma_trim_start(letters.drop_first());
        let whole = seq![letters.first()] + front;
        assert(letters =~= whole + rest) by {
            assert(letters =~= seq![letters.first()] + letters.drop_first());
        }
        assert forall|i: int| 0 <= i < whole.len() implies is_white_space(#[trigger] whole[i]) by {
            if i > 0 {
                assert(whole[i] == front[i - 1]);
            }
        }
        (whole, rest)
    } else {
        assert(letters =~= Seq::<char>::empty() + letters);
        (Seq::empty(), letters)
    }
}

/// The white space behind a text.
proof fn lemma_trim_end(letters: Seq<char>) -> (back: Seq<char>)
    ensures
        letters == trim_end(letters) + back,
        all_white_space(back),
        trim_end(letters).len() > 0 ==> !is_white_space(trim_end(letters).last()),
    decreases letters.len(),
{
    if letters.len() > 0 && is_white_space(letters.last()) {
        let rest = lemma_trim_end(letters.drop_last());
        let back = rest.push(letters.last());
        assert(letters =~= trim_end(letters) + back) by {
            assert(letters =~= letters.drop_last().push(letters.last()));
        }
        assert forall|i: int| 0 <= i < back.len() implies is_white_space(#[trigger] back[i]) by {
            if i < rest.len() {
                assert(back[i] == rest[i]);
            }
        }
        back
    } else {
        assert(letters =~= letters + Seq::<char>::empty());
        Seq::empty()
    }
}

/// The letters, digits, and marks from `!` to `~` are neither white space nor
/// control characters. A space and a line end are white space.
pub proof fn law_printed_characters_are_not_white_space(
    character: char,
    white: bool,
    controls: bool,
)
    requires
        call_ensures(white_space, (character,), white),
        call_ensures(control, (character,), controls),
    ensures
        33 <= character as int <= 126 ==> !white && !controls,
        character as int == 32 ==> white && !controls,
        9 <= character as int <= 13 ==> white && controls,
        character as int <= 31 ==> controls,
        character as int == 127 ==> controls && !white,
{
}

/// Pieces with their separators between them.
pub open spec fn rejoined(parts: Seq<Seq<char>>, separator: char) -> Seq<char>
    decreases parts.len(),
{
    if parts.len() == 0 {
        Seq::empty()
    } else if parts.len() == 1 {
        parts[0]
    } else {
        rejoined(parts.drop_last(), separator).push(separator) + parts.last()
    }
}

/// Splitting loses nothing: the pieces with the separator between them are the
/// text, and no piece holds the separator.
pub proof fn law_pieces_make_up_the_text(letters: Seq<char>, separator: char)
    ensures
        rejoined(pieces(letters, separator), separator) == letters,
        forall|i: int|
            0 <= i < pieces(letters, separator).len() ==> !(#[trigger] pieces(
                letters,
                separator,
            )[i]).contains(separator),
    decreases letters.len(),
{
    reveal_with_fuel(rejoined, 2);
    lemma_there_are_pieces(letters, separator);
    let parts = pieces(letters, separator);
    if letters.len() > 0 {
        let shorter = letters.drop_last();
        law_pieces_make_up_the_text(shorter, separator);
        lemma_there_are_pieces(shorter, separator);
        let front = pieces(shorter, separator);
        if letters.last() == separator {
            assert(parts.drop_last() =~= front);
            assert(rejoined(parts, separator) =~= shorter.push(separator));
            assert(shorter.push(separator) =~= letters);
        } else {
            assert(parts.drop_last() =~= front.drop_last());
            assert(rejoined(parts, separator) =~= rejoined(front, separator).push(letters.last()));
            assert(shorter.push(letters.last()) =~= letters);
        }
        assert forall|i: int| 0 <= i < parts.len() implies !(#[trigger] parts[i]).contains(
            separator,
        ) by {
            if i < parts.len() - 1 {
                assert(parts[i] == front[i]);
            } else if letters.last() != separator {
                let last = front.last();
                assert(front[front.len() - 1] == last);
                assert forall|j: int| 0 <= j < parts[i].len() implies parts[i][j] != separator by {
                    if j < last.len() {
                        assert(parts[i][j] == last[j]);
                    }
                }
            }
        }
    } else {
        assert(parts[0].len() == 0);
        assert(parts[0] =~= letters);
    }
}

/// A number is read when it is written in digits, behind at most one plus sign,
/// and fits 32 bits. Zeros in front do not matter.
pub proof fn law_numbers_are_read_back(letters: Vec<char>, number: Option<u32>, value: u32, width: nat)
    requires
        call_ensures(read_whole_number, (&letters,), number),
    ensures
        letters@ == padded(value as nat, width) ==> number == Some(value),
        letters@ == seq!['+'] + padded(value as nat, width) ==> number == Some(value),
        letters@.len() == 0 ==> number is None,
        number is Some ==> forall|i: int|
            0 < i < letters@.len() ==> '0' <= #[trigger] letters@[i] <= '9',
        number is Some ==> '0' <= letters@[0] <= '9' || (letters@[0] == '+' && letters@.len() > 1),
        all_digits(letters@) && number_of(letters@) > 0xFFFF_FFFF ==> number is None,
{
    let digits = padded(value as nat, width);
    law_padded_numbers_have_their_width(value as nat, width);
    lemma_decimal_spells(value as nat);
    assert(digits.len() > 0);
    if letters@ == digits {
        assert('0' <= digits[0] <= '9');
        assert(without_plus(letters@) == digits);
    }
    if letters@ == seq!['+'] + digits {
        assert(letters@.skip(1) =~= digits);
    }
    if letters@.len() > 0 && letters@[0] == '+' {
        let rest = letters@.skip(1);
        if number is Some {
            assert forall|i: int| 0 < i < letters@.len() implies '0' <= #[trigger] letters@[i]
                <= '9' by {
                assert(rest[i - 1] == letters@[i]);
            }
        }
        assert(all_digits(letters@) ==> '0' <= letters@[0]);
    }
}

} // verus!
