//! Paths, as the texts that the rules of this library read.
use vstd::prelude::*;

use crate::text::{copy_opt, opt_text, range_string, to_chars};

verus! {

// ---- Named files ----

/// Whether there is a platform on which the path is absolute: it starts with a
/// separator, or with a drive and a separator.
pub open spec fn may_be_absolute(path: Seq<char>) -> bool {
    &&& path.len() > 0
    &&& {
        ||| path[0] == '/' || path[0] == '\\'
        ||| path.len() >= 3 && path[1] == ':' && (path[2] == '/' || path[2] == '\\')
    }
}

/// Where a file that the configuration names lies.
#[derive(Debug, PartialEq, Eq)]
pub enum Location {
    /// At the path as it is given.
    AsGiven(String),
    /// At the path below the root.
    UnderRoot(String),
}

impl Location {
    /// The path.
    pub open spec fn path(self) -> Seq<char> {
        match self {
            Location::AsGiven(path) => path@,
            Location::UnderRoot(path) => path@,
        }
    }

    /// Whether the location is one that the path can have: a path that is
    /// absolute nowhere lies below the root.
    pub open spec fn fits(self) -> bool {
        self is AsGiven ==> may_be_absolute(self.path())
    }
}

impl Clone for Location {
    fn clone(&self) -> (copy: Location)
        ensures
            copy == self,
    {
        match self {
            Location::AsGiven(path) => Location::AsGiven(path.clone()),
            Location::UnderRoot(path) => Location::UnderRoot(path.clone()),
        }
    }
}

/// Asks `Path::is_absolute` about a path.
///
/// Claimed of it: an absolute path starts with a root, which is a separator,
/// behind a prefix such as a drive where the platform has prefixes. Whether
/// such a path is absolute rests on the platform and is left open.
#[verifier::external_body]
fn is_absolute(path: &str) -> (absolute: bool)
    ensures
        absolute ==> may_be_absolute(path@),
{
    std::path::Path::new(path).is_absolute()
}

/// Places a path: an absolute one as it is given, any other below the root.
pub fn place_path(path: &str, absolute: bool) -> (location: Location)
    ensures
        location.path() == path@,
        location is AsGiven <==> absolute,
{
    if absolute {
        Location::AsGiven(path.to_owned())
    } else {
        Location::UnderRoot(path.to_owned())
    }
}

/// Places a path that the configuration names.
pub fn resolve_path(path: &str) -> (location: Location)
    ensures
        location.path() == path@,
        location.fits(),
{
    place_path(path, is_absolute(path))
}

// ---- Found files ----

/// What the rules read of the path of a file. A part of a path that is not
/// Unicode is held as no text.
#[derive(Debug)]
pub struct FilePath {
    /// A number by which the caller finds the file again.
    pub id: usize,
    /// The whole path.
    pub full: String,
    /// The path below the root, where the file lies below it.
    pub under_root: Option<String>,
    /// The last component.
    pub file_name: Option<String>,
    /// The part of the last component behind its last dot.
    pub extension: Option<String>,
}

/// The texts of the path of a file.
pub struct FilePathView {
    pub id: nat,
    pub full: Seq<char>,
    pub under_root: Option<Seq<char>>,
    pub file_name: Option<Seq<char>>,
    pub extension: Option<Seq<char>>,
}

impl View for FilePath {
    type V = FilePathView;

    open spec fn view(&self) -> FilePathView {
        FilePathView {
            id: self.id as nat,
            full: self.full@,
            under_root: opt_text(self.under_root),
            file_name: opt_text(self.file_name),
            extension: opt_text(self.extension),
        }
    }
}

impl Clone for FilePath {
    fn clone(&self) -> (copy: FilePath)
        ensures
            copy@ == self@,
    {
        FilePath {
            id: self.id,
            full: self.full.clone(),
            under_root: copy_opt(&self.under_root),
            file_name: copy_opt(&self.file_name),
            extension: copy_opt(&self.extension),
        }
    }
}

/// The text with a slash in place of each backslash.
pub open spec fn slashed(text: Seq<char>) -> Seq<char> {
    text.map_values(
        |c: char|
            if c == '\\' {
                '/'
            } else {
                c
            },
    )
}

/// The text without each `./` at its start.
pub open spec fn without_dots(text: Seq<char>) -> Seq<char>
    decreases text.len(),
{
    if text.len() >= 2 && text[0] == '.' && text[1] == '/' {
        without_dots(text.skip(2))
    } else {
        text
    }
}

/// The path of a file in reports and for ignore rules: below the root where
/// the file lies there, with slashes, without a leading `./`.
pub open spec fn relative_path(path: FilePathView) -> Seq<char> {
    without_dots(
        slashed(
            match path.under_root {
                Some(text) => text,
                None => path.full,
            },
        ),
    )
}

/// Writes the path of a file as reports and ignore rules have it.
pub fn normalize_relative_path(path: &FilePath) -> (relative: String)
    ensures
        relative@ == relative_path(path@),
{
    let chars = match &path.under_root {
        Some(text) => to_chars(text.as_str()),
        None => to_chars(path.full.as_str()),
    };
    let mut flat: Vec<char> = Vec::new();
    let mut at: usize = 0;
    while at < chars.len()
        invariant
            at <= chars@.len(),
            flat@ == slashed(chars@).take(at as int),
        decreases chars@.len() - at,
    {
        let c = if chars[at] == '\\' {
            '/'
        } else {
            chars[at]
        };
        flat.push(c);
        at = at + 1;
        assert(slashed(chars@).take(at as int) == slashed(chars@).take(at - 1).push(c));
    }
    assert(slashed(chars@).take(at as int) == slashed(chars@));
    let total: usize = flat.len();
    let mut start: usize = 0;
    assert(flat@.skip(0) == flat@);
    while total - start >= 2 && flat[start] == '.' && flat[start + 1] == '/'
        invariant
            start <= total == flat@.len(),
            without_dots(flat@.skip(start as int)) == without_dots(flat@),
        decreases total - start,
    {
        assert(flat@.skip(start as int).skip(2) == flat@.skip(start + 2));
        start = start + 2;
    }
    assert(flat@.subrange(start as int, total as int) == flat@.skip(start as int));
    range_string(&flat, start, total)
}

/// A normal path holds no backslash.
pub proof fn relative_path_has_no_backslash(path: FilePathView)
    ensures
        !relative_path(path).contains('\\'),
{
    let text = match path.under_root {
        Some(text) => text,
        None => path.full,
    };
    without_dots_is_suffix(slashed(text));
    if relative_path(path).contains('\\') {
        assert(slashed(text).contains('\\'));
        let i = choose|i: int| 0 <= i < slashed(text).len() && slashed(text)[i] == '\\';
        assert(slashed(text)[i] != '\\');
    }
}

/// What is left without leading dots is the end of the text.
proof fn without_dots_is_suffix(text: Seq<char>)
    ensures
        forall|c: char| without_dots(text).contains(c) ==> text.contains(c),
    decreases text.len(),
{
    if text.len() >= 2 && text[0] == '.' && text[1] == '/' {
        without_dots_is_suffix(text.skip(2));
        assert forall|c: char| text.skip(2).contains(c) implies text.contains(c) by {
            let i = choose|i: int| 0 <= i < text.skip(2).len() && text.skip(2)[i] == c;
            assert(text[i + 2] == c);
        }
    }
}

/// The key of the kind of a file: a dot and the extension, or the name where
/// there is no extension.
pub open spec fn file_key(path: FilePathView) -> Seq<char> {
    match path.extension {
        Some(extension) => seq!['.'] + extension,
        None => match path.file_name {
            Some(name) => name,
            None => Seq::empty(),
        },
    }
}

/// Makes the key of the kind of a file.
pub fn format_key(path: &FilePath) -> (key: String)
    ensures
        key@ == file_key(path@),
{
    match &path.extension {
        Some(extension) => {
            let mut key = String::new();
            key.push('.');
            key.append(extension.as_str());
            assert(key@ == seq!['.'] + extension@);
            key
        },
        None => match &path.file_name {
            Some(name) => name.clone(),
            None => String::new(),
        },
    }
}

// ---- Laws ----

/// Whether a text is made of pairs of a dot and a slash.
pub open spec fn only_dot_slashes(text: Seq<char>) -> bool {
    &&& text.len() % 2 == 0
    &&& forall|i: int|
        0 <= i < text.len() ==> #[trigger] text[i] == if i % 2 == 0 {
            '.'
        } else {
            '/'
        }
}

proof fn dots_are_cut(text: Seq<char>) -> (dots: Seq<char>)
    ensures
        only_dot_slashes(dots),
        text == dots + without_dots(text),
        !(without_dots(text).len() >= 2 && without_dots(text)[0] == '.' && without_dots(text)[1]
            == '/'),
    decreases text.len(),
{
    if text.len() >= 2 && text[0] == '.' && text[1] == '/' {
        let more = dots_are_cut(text.skip(2));
        let dots = seq!['.', '/'] + more;
        assert(text =~= seq!['.', '/'] + text.skip(2));
        assert(text =~= dots + without_dots(text));
        assert forall|i: int| 0 <= i < dots.len() implies #[trigger] dots[i] == if i % 2 == 0 {
            '.'
        } else {
            '/'
        } by {
            if i >= 2 {
                assert(dots[i] == more[i - 2]);
            }
        }
        dots
    } else {
        assert(text =~= Seq::<char>::empty() + text);
        Seq::empty()
    }
}

/// The path of a file is reported below the root where the file lies below it,
/// else as a whole, with a slash for each backslash and every other character
/// as it is, and without each `./` at its start. What is cut off is returned.
pub proof fn how_a_path_is_reported(path: FilePathView) -> (dots: Seq<char>)
    ensures
        ({
            let text = match path.under_root {
                Some(below) => below,
                None => path.full,
            };
            let told = dots + relative_path(path);
            &&& told.len() == text.len()
            &&& forall|i: int|
                0 <= i < text.len() ==> #[trigger] told[i] == if text[i] == '\\' {
                    '/'
                } else {
                    text[i]
                }
            &&& only_dot_slashes(dots)
            &&& !(relative_path(path).len() >= 2 && relative_path(path)[0] == '.'
                && relative_path(path)[1] == '/')
        }),
{
    let text = match path.under_root {
        Some(below) => below,
        None => path.full,
    };
    dots_are_cut(slashed(text))
}

/// The kind of a file is a dot and its extension; without an extension it is
/// its name, and without a name it is empty.
pub proof fn the_kind_of_a_file(path: FilePathView, text: Seq<char>)
    ensures
        path.extension == Some(text) ==> file_key(path) == seq!['.'] + text,
        path.extension is None && path.file_name == Some(text) ==> file_key(path) == text,
        path.extension is None && path.file_name is None ==> file_key(path).len() == 0,
{
}

} // verus!
