//! File locations as the naming rules see them.
//!
//! A [`FilePath`] keeps the text of a location in two pieces: everything in
//! front of the file name, and the file name. The naming rules only look at the
//! name, and only ever add a name below a location. The separator is part of
//! the value, so no rule depends on the platform.
pub mod location;

use vstd::prelude::*;

use crate::text::{characters, find_last, slice, string_of};

verus! {

/// A file or directory location.
#[derive(Debug)]
pub struct FilePath {
    /// Text in front of the file name, with its last separator.
    pub folder: String,
    /// File name. It is empty when the location does not name a file.
    pub name: String,
    /// Character that separates the names in `folder`.
    pub separator: char,
}

/// The mathematical value of a [`FilePath`].
pub struct PathView {
    pub folder: Seq<char>,
    pub name: Seq<char>,
    pub separator: char,
}

impl PathView {
    /// The complete text of the location.
    pub open spec fn text(self) -> Seq<char> {
        self.folder + self.name
    }

    /// The text that stands in front of a name inside this location. No separator
    /// is added behind a separator, nor behind the letter of a drive.
    pub open spec fn below(self) -> Seq<char> {
        let text = self.text();
        if text.len() == 0 || location::is_separator(text.last(), self.separator) || (text.len()
            == 2 && location::has_drive(text, self.separator)) {
            text
        } else {
            text.push(self.separator)
        }
    }

    /// The location with this name directly inside this location.
    pub open spec fn child(self, name: Seq<char>) -> PathView {
        PathView { folder: self.below(), name, separator: self.separator }
    }

    /// Whether two texts lead to the same location.
    pub open spec fn same_place(self, other: PathView) -> bool {
        self.separator == other.separator && location::location(self.text(), self.separator)
            == location::location(other.text(), self.separator)
    }
}

/// Whether a name identifies a file. The names of the current and the parent
/// folder do not.
pub open spec fn names_file(name: Seq<char>) -> bool {
    name.len() > 0 && name != seq!['.'] && name != seq!['.', '.']
}

/// The part of a file name in front of its extension.
///
/// The extension starts after the last dot. A name without a dot, and a name
/// whose only dot comes first, has no extension; the name `..` has none either.
pub open spec fn stem_of(name: Seq<char>) -> Seq<char> {
    if has_extension(name) {
        name.take(crate::text::last_position(name, '.')->0 as int)
    } else {
        name
    }
}

/// Whether a file name has an extension.
pub open spec fn has_extension(name: Seq<char>) -> bool {
    &&& name != seq!['.', '.']
    &&& crate::text::last_position(name, '.') is Some
    &&& crate::text::last_position(name, '.')->0 > 0
}

/// The extension of a file name, if it has one.
pub open spec fn extension_of(name: Seq<char>) -> Option<Seq<char>> {
    if has_extension(name) {
        Some(name.skip(crate::text::last_position(name, '.')->0 as int + 1))
    } else {
        None
    }
}

impl View for FilePath {
    type V = PathView;

    open spec fn view(&self) -> PathView {
        PathView { folder: self.folder@, name: self.name@, separator: self.separator }
    }
}

impl Clone for FilePath {
    fn clone(&self) -> (copy: FilePath)
        ensures
            copy == *self,
    {
        FilePath {
            folder: self.folder.clone(),
            name: self.name.clone(),
            separator: self.separator,
        }
    }
}

impl FilePath {
    /// Creates a location from the text in front of a name and the name.
    pub fn new(folder: &str, name: &str, separator: char) -> (path: FilePath)
        ensures
            path@ == (PathView { folder: folder@, name: name@, separator }),
    {
        FilePath { folder: String::from_str(folder), name: String::from_str(name), separator }
    }

    /// Returns the complete text of the location.
    pub fn text(&self) -> (text: String)
        ensures
            text@ == self@.text(),
    {
        let mut text = self.folder.clone();
        text.append(self.name.as_str());
        text
    }

    /// Returns the location with this name directly inside this location.
    pub fn child(&self, name: &str) -> (path: FilePath)
        ensures
            path@ == self@.child(name@),
    {
        let mut folder = self.text();
        let letters = characters(folder.as_str());
        let count: usize = letters.len();
        if count > 0 && !location::separates(letters[count - 1], self.separator) && !(count == 2
            && location::starts_with_drive(&letters, self.separator)) {
            folder.push(self.separator);
        }
        FilePath { folder, name: String::from_str(name), separator: self.separator }
    }

    /// Reports whether two texts lead to the same location.
    pub fn same(&self, other: &FilePath) -> (same: bool)
        ensures
            same == self@.same_place(other@),
    {
        self.separator == other.separator && location::same_location(
            self.text().as_str(),
            other.text().as_str(),
            self.separator,
        )
    }

    /// Reports whether the location has a name that identifies a file.
    pub fn names_file(&self) -> (result: bool)
        ensures
            result == names_file(self@.name),
    {
        let letters = characters(self.name.as_str());
        let count: usize = letters.len();
        let current = count == 1 && letters[0] == '.';
        let parent = count == 2 && letters[0] == '.' && letters[1] == '.';
        proof {
            if current {
                assert(letters@ =~= seq!['.']);
            }
            if parent {
                assert(letters@ =~= seq!['.', '.']);
            }
            assert(seq!['.'][0] == '.');
            assert(seq!['.', '.'][0] == '.' && seq!['.', '.'][1] == '.');
        }
        count > 0 && !current && !parent
    }

    /// Returns the extension of the file name, if it has one.
    pub fn extension(&self) -> (extension: Option<String>)
        ensures
            extension is Some == extension_of(self@.name) is Some,
            extension is Some ==> extension->0@ == extension_of(self@.name)->0,
    {
        let letters = characters(self.name.as_str());
        match dot_before_extension(&letters) {
            None => None,
            Some(dot) => {
                let tail = slice(&letters, dot + 1, letters.len());
                proof {
                    assert(tail@ =~= letters@.skip(dot + 1));
                }
                Some(string_of(&tail))
            },
        }
    }

    /// Returns the file name without its extension.
    pub fn stem(&self) -> (stem: String)
        ensures
            stem@ == stem_of(self@.name),
    {
        let letters = characters(self.name.as_str());
        match dot_before_extension(&letters) {
            None => self.name.clone(),
            Some(dot) => {
                let front = slice(&letters, 0, dot);
                proof {
                    assert(front@ =~= letters@.take(dot as int));
                }
                string_of(&front)
            },
        }
    }
}

/// Finds the dot in front of the extension of a file name.
fn dot_before_extension(name: &Vec<char>) -> (dot: Option<usize>)
    ensures
        dot is Some == has_extension(name@),
        dot is Some ==> dot->0 == crate::text::last_position(name@, '.')->0 && dot->0 < name.len(),
{
    if name.len() == 2 && name[0] == '.' && name[1] == '.' {
        proof {
            assert(name@ =~= seq!['.', '.']);
        }
        return None;
    }
    proof {
        assert(name@ != seq!['.', '.']);
    }
    match find_last(name, '.') {
        Some(dot) if dot > 0 => Some(dot),
        _ => None,
    }
}

/// A name with an extension of letters behind it has exactly that extension.
pub proof fn lemma_added_extension(name: Seq<char>, extension: Seq<char>)
    requires
        name.len() > 0,
        extension.len() > 0,
        forall|i: int| 0 <= i < extension.len() ==> #[trigger] extension[i] != '.',
    ensures
        extension_of(name.push('.') + extension) == Some(extension),
{
    let whole = name.push('.') + extension;
    lemma_dot_in_front(name, extension);
    assert(whole.last() == extension.last());
    assert(seq!['.', '.'].last() == '.');
    assert(whole != seq!['.', '.']);
    assert(whole.skip(name.len() as int + 1) =~= extension);
}

/// The last dot stands in front of letters without a dot.
pub proof fn lemma_dot_in_front(name: Seq<char>, letters: Seq<char>)
    requires
        forall|i: int| 0 <= i < letters.len() ==> #[trigger] letters[i] != '.',
    ensures
        crate::text::last_position(name.push('.') + letters, '.') == Some(name.len()),
    decreases letters.len(),
{
    let whole = name.push('.') + letters;
    if letters.len() == 0 {
        assert(whole =~= name.push('.'));
    } else {
        let shorter = letters.drop_last();
        assert forall|i: int| 0 <= i < shorter.len() implies #[trigger] shorter[i] != '.' by {
            assert(shorter[i] == letters[i]);
        }
        lemma_dot_in_front(name, shorter);
        assert(whole.drop_last() =~= name.push('.') + shorter);
        assert(whole.last() == letters.last());
        assert(letters[letters.len() - 1] != '.');
    }
}

/// A location inside another one has the text of that location in front of its
/// name, with one separator between them. No separator is doubled.
pub proof fn law_children_stand_behind_one_separator(parent: FilePath, name: &str, child: FilePath)
    requires
        call_ensures(FilePath::child, (&parent, name), child),
    ensures
        ({
            let whole = parent.folder@ + parent.name@;
            &&& child.name@ == name@
            &&& child.separator == parent.separator
            &&& whole.len() > 2 && whole.last() != '/' && whole.last() != '\\' && whole.last()
                != parent.separator ==> child@.text() == whole.push(parent.separator) + name@
            &&& whole.len() > 0 && whole.last() == parent.separator ==> child@.text() == whole
                + name@
            &&& whole.len() == 0 ==> child@.text() == name@
        }),
{
    let whole = parent.folder@ + parent.name@;
    if whole.len() == 0 {
        assert(whole + name@ =~= name@);
    }
}

/// A name is its stem, or its stem, a dot, and its extension. The extension
/// holds no dot, and the stem is not empty.
pub proof fn law_names_are_stems_and_extensions(
    path: FilePath,
    stem: String,
    extension: Option<String>,
)
    requires
        call_ensures(FilePath::stem, (&path,), stem),
        call_ensures(FilePath::extension, (&path,), extension),
    ensures
        extension is None ==> stem@ == path.name@,
        extension is Some ==> path.name@ == stem@.push('.') + extension->0@,
        extension is Some ==> stem@.len() > 0 && !extension->0@.contains('.'),
        extension is None ==> path.name@ == seq!['.', '.'] || forall|i: int|
            0 < i < path.name@.len() ==> path.name@[i] != '.',
{
    let name = path.name@;
    crate::text::law_the_last_position_is_the_last(name, '.');
    if extension is Some {
        let dot = crate::text::last_position(name, '.')->0 as int;
        assert(name =~= name.take(dot).push('.') + name.skip(dot + 1));
        assert forall|i: int| 0 <= i < extension->0@.len() implies extension->0@[i] != '.' by {
            assert(extension->0@[i] == name[dot + 1 + i]);
        }
    }
}

/// Every name identifies a file but the empty one and those of the current and
/// the parent folder.
pub proof fn law_dot_names_are_no_files(path: FilePath, result: bool)
    requires
        call_ensures(FilePath::names_file, (&path,), result),
    ensures
        path.name@.len() == 0 ==> !result,
        path.name@.len() > 2 ==> result,
        path.name@.len() > 0 && path.name@[0] != '.' ==> result,
        path.name@.len() == 2 && path.name@[1] != '.' ==> result,
        path.name@ == seq!['.'] || path.name@ == seq!['.', '.'] ==> !result,
{
    assert(seq!['.'][0] == '.');
    assert(seq!['.', '.'][0] == '.' && seq!['.', '.'][1] == '.');
}

/// The text of a location is its folder followed by its name.
pub proof fn law_texts_are_folders_and_names(path: FilePath, whole: String)
    requires
        call_ensures(FilePath::text, (&path,), whole),
    ensures
        whole@ == path.folder@ + path.name@,
{
}

} // verus!
