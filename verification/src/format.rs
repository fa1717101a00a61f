//! How the license is written in each kind of file.
use vstd::hash_map::StringHashMap;
use vstd::prelude::*;

use crate::config::{
    bare_format, declared_view, Config, ConfigView, Format, FormatView, LineFormat, LineFormatView,
};
use crate::paths::{resolve_path, Location};
use crate::text::{
    is_white_space, join, joined, lines, opt_str, pieces, range_string, split_char, split_lines,
    texts, to_chars, trim_end, trimmed_end, Eol, Trim,
};
use crate::text_lemmas::trimmed_end_is_trimmed;

verus! {

// ---- Line endings round the license ----

/// The text without the line endings at its start.
pub open spec fn without_first_ends(text: Seq<char>) -> Seq<char>
    decreases text.len(),
{
    if text.len() >= 2 && text[0] == '\r' && text[1] == '\n' {
        without_first_ends(text.skip(2))
    } else if text.len() >= 1 && text[0] == '\n' {
        without_first_ends(text.skip(1))
    } else {
        text
    }
}

/// The text without the line endings at its end.
pub open spec fn without_last_ends(text: Seq<char>) -> Seq<char>
    decreases text.len(),
{
    let count = text.len();
    if count >= 2 && text[count - 2] == '\r' && text[count - 1] == '\n' {
        without_last_ends(text.take(count - 2))
    } else if count >= 1 && text[count - 1] == '\n' {
        without_last_ends(text.take(count - 1))
    } else {
        text
    }
}

/// The text without the line endings at its start and its end.
pub open spec fn without_ends(text: Seq<char>) -> Seq<char> {
    without_last_ends(without_first_ends(text))
}

/// Takes the line endings at the start and the end of a license away.
pub fn trim_license_line_endings(text: &str) -> (rest: &str)
    ensures
        rest@ == without_ends(text@),
{
    let chars = to_chars(text);
    let mut start: usize = 0;
    let mut end: usize = chars.len();
    let total: usize = end;
    assert(chars@.skip(0) == chars@);
    loop
        invariant_except_break
            start <= total == chars@.len(),
            without_first_ends(chars@.skip(start as int)) == without_first_ends(chars@),
        ensures
            start <= total == chars@.len(),
            chars@.skip(start as int) == without_first_ends(chars@),
        decreases total - start,
    {
        let ghost rest = chars@.skip(start as int);
        if total - start >= 2 && chars[start] == '\r' && chars[start + 1] == '\n' {
            assert(rest.skip(2) == chars@.skip(start + 2));
            start = start + 2;
        } else if total - start >= 1 && chars[start] == '\n' {
            assert(rest.skip(1) == chars@.skip(start + 1));
            start = start + 1;
        } else {
            break;
        }
    }
    let ghost lead = chars@.skip(start as int);
    assert(chars@.subrange(start as int, end as int) == lead);
    loop
        invariant_except_break
            start <= end <= chars@.len(),
            without_last_ends(chars@.subrange(start as int, end as int)) == without_last_ends(lead),
        ensures
            start <= end <= chars@.len(),
            chars@.subrange(start as int, end as int) == without_last_ends(lead),
        decreases end - start,
    {
        let ghost here = chars@.subrange(start as int, end as int);
        if end - start >= 2 && chars[end - 2] == '\r' && chars[end - 1] == '\n' {
            assert(here.take(here.len() - 2) == chars@.subrange(start as int, end - 2));
            end = end - 2;
        } else if end - start >= 1 && chars[end - 1] == '\n' {
            assert(here.take(here.len() - 1) == chars@.subrange(start as int, end - 1));
            end = end - 1;
        } else {
            break;
        }
    }
    text.substring_char(start, end)
}

// ---- Formats ----

/// The format that puts a text before and after each line.
pub open spec fn each_line_view(prepend: Seq<char>, append: Option<Seq<char>>) -> FormatView {
    FormatView {
        each_line: Some(LineFormatView { append, prepend: Some(prepend) }),
        ..bare_format()
    }
}

/// The format that puts a line before and after the license.
pub open spec fn wrapped_view(prepend: Seq<char>, append: Seq<char>) -> FormatView {
    FormatView { append: Some(append), prepend: Some(prepend), ..bare_format() }
}

/// Makes the format that puts a text before and after each line.
pub fn each_line(prepend: &str, append: Option<&str>) -> (format: Format)
    ensures
        format@ == each_line_view(prepend@, opt_str(append)),
{
    let append = match append {
        Some(text) => Some(text.to_owned()),
        None => None,
    };
    Format {
        append: None,
        prepend: None,
        each_line: Some(LineFormat { append, prepend: Some(prepend.to_owned()) }),
        file: None,
    }
}

/// Makes the format that puts a line before and after the license.
pub fn wrapped(prepend: &str, append: &str) -> (format: Format)
    ensures
        format@ == wrapped_view(prepend@, append@),
{
    Format {
        append: Some(append.to_owned()),
        prepend: Some(prepend.to_owned()),
        each_line: None,
        file: None,
    }
}

/// The key of a kind of file: a dot and the extension, or, behind a `^`, the
/// name itself.
pub open spec fn key_name(key: Seq<char>) -> Seq<char> {
    if key.len() > 0 && key[0] == '^' {
        key.skip(1)
    } else {
        seq!['.'] + key
    }
}

/// Makes the key of a kind of file.
pub fn format_key_name(key: &str) -> (name: String)
    ensures
        name@ == key_name(key@),
{
    let chars = to_chars(key);
    if chars.len() > 0 && chars[0] == '^' {
        let name = range_string(&chars, 1, chars.len());
        assert(name@ == key@.skip(1));
        name
    } else {
        let mut name = String::new();
        name.push('.');
        name.append(key);
        assert(name@ == seq!['.'] + key@);
        name
    }
}

/// The formats by key, as texts.
pub open spec fn formats_view(formats: Map<Seq<char>, Format>) -> Map<Seq<char>, FormatView> {
    formats.map_values(|format: Format| format@)
}

/// The formats after one was declared for each of some keys.
pub open spec fn with_keys(
    formats: Map<Seq<char>, FormatView>,
    keys: Seq<Seq<char>>,
    format: FormatView,
) -> Map<Seq<char>, FormatView>
    decreases keys.len(),
{
    if keys.len() == 0 {
        formats
    } else {
        with_keys(formats, keys.drop_last(), format).insert(key_name(keys.last()), format)
    }
}

/// The formats after each declaration in order: the keys of a declaration
/// are separated by `|`, and a later declaration of a key replaces an earlier
/// one.
pub open spec fn with_declared(
    formats: Map<Seq<char>, FormatView>,
    declared: Seq<(Seq<char>, FormatView)>,
) -> Map<Seq<char>, FormatView>
    decreases declared.len(),
{
    if declared.len() == 0 {
        formats
    } else {
        let last = declared.last();
        with_keys(with_declared(formats, declared.drop_last()), pieces(last.0, '|'), last.1)
    }
}

/// Declares a format for each of the keys.
fn add_format(formats: &mut StringHashMap<Format>, keys: &str, format: &Format)
    ensures
        formats_view(final(formats)@) == with_keys(
            formats_view(old(formats)@),
            pieces(keys@, '|'),
            format@,
        ),
{
    let chars = to_chars(keys);
    let list = split_char(&chars, '|');
    let ghost all = texts(list@);
    let mut at: usize = 0;
    while at < list.len()
        invariant
            at <= list@.len(),
            all == texts(list@),
            formats_view(formats@) == with_keys(
                formats_view(old(formats)@),
                all.take(at as int),
                format@,
            ),
        decreases list@.len() - at,
    {
        let ghost before = formats@;
        assert(all.take(at + 1).drop_last() == all.take(at as int));
        assert(all.take(at + 1).last() == list@[at as int]@);
        let copy = format.clone();
        let ghost copied = copy;
        let name = format_key_name(list[at].as_str());
        let ghost key = name@;
        formats.insert(name, copy);
        assert(formats_view(formats@) =~= formats_view(before).insert(key, format@));
        at = at + 1;
    }
    assert(all.take(at as int) == all);
}

/// Declares formats; the keys of each are separated by `|`.
pub fn add_formats(formats: &mut StringHashMap<Format>, entries: &Vec<(String, Format)>)
    ensures
        formats_view(final(formats)@) == with_declared(
            formats_view(old(formats)@),
            declared_view(entries@),
        ),
{
    let ghost all = declared_view(entries@);
    let mut at: usize = 0;
    while at < entries.len()
        invariant
            at <= entries@.len(),
            all == declared_view(entries@),
            formats_view(formats@) == with_declared(
                formats_view(old(formats)@),
                all.take(at as int),
            ),
        decreases entries@.len() - at,
    {
        assert(all.take(at + 1).drop_last() == all.take(at as int));
        assert(all.take(at + 1).last() == (entries@[at as int].0@, entries@[at as int].1@));
        add_format(formats, entries[at].0.as_str(), &entries[at].1);
        at = at + 1;
    }
    assert(all.take(at as int) == all);
}

/// Declares the formats of a configuration, in the order in which they are
/// to be taken.
pub fn add_formats_map(formats: &mut StringHashMap<Format>, declared: &Vec<(String, Format)>)
    ensures
        formats_view(final(formats)@) == with_declared(
            formats_view(old(formats)@),
            declared_view(declared@),
        ),
{
    add_formats(formats, declared)
}

/// The formats that are declared before those of the configuration.
pub open spec fn built_in() -> Seq<(Seq<char>, FormatView)> {
    seq![
        (
            "gitignore|npmignore|eslintignore|dockerignore|sh|py"@,
            each_line_view("# "@, None),
        ),
        ("html|xml|svg"@, wrapped_view("<!--"@, "-->"@)),
        ("js|ts|css|scss|less|php|as|c|java|cpp|go|cto|acl"@, wrapped_view("/*"@, "*/"@)),
        ("txt"@, bare_format()),
    ]
}

/// The formats that a configuration has.
pub open spec fn all_formats(config: ConfigView) -> Map<Seq<char>, FormatView> {
    with_declared(with_declared(Map::empty(), built_in()), config.license_formats)
}

/// The format for a key.
pub open spec fn format_for(config: ConfigView, key: Seq<char>) -> FormatView {
    if all_formats(config).contains_key(key) {
        all_formats(config)[key]
    } else {
        config.default_format
    }
}

/// A line of the license in a format.
pub open spec fn formatted_line(line: Seq<char>, format: LineFormatView, trim: bool) -> Seq<char> {
    let before = match format.prepend {
        Some(text) => text + line,
        None => line,
    };
    let both = match format.append {
        Some(text) => before + text,
        None => before,
    };
    if trim {
        trimmed_end(both, Trim::WhiteSpace)
    } else {
        both
    }
}

/// The license in a format.
pub open spec fn formatted_text(
    license: Seq<char>,
    format: FormatView,
    trim: bool,
    eol: Eol,
) -> Seq<char> {
    let bare = without_ends(license);
    let middle = match format.each_line {
        Some(each) => joined(
            lines(bare).map_values(|line: Seq<char>| formatted_line(line, each, trim)),
            eol.chars(),
        ),
        None => bare,
    };
    let top = match format.prepend {
        Some(text) => text + eol.chars() + middle,
        None => middle,
    };
    match format.append {
        Some(text) => top + eol.chars() + text,
        None => top,
    }
}

/// Where the license for a kind of file comes from.
#[derive(Debug)]
pub enum Formatted {
    /// It is this text.
    Text(String),
    /// It is what this file holds.
    File(Location),
}

/// Where the license for a kind of file comes from, as texts.
pub enum FormattedView {
    Text(Seq<char>),
    File(Seq<char>),
}

impl View for Formatted {
    type V = FormattedView;

    open spec fn view(&self) -> FormattedView {
        match self {
            Formatted::Text(text) => FormattedView::Text(text@),
            Formatted::File(location) => FormattedView::File(location.path()),
        }
    }
}

/// What a configuration writes for a key.
pub open spec fn formatted(
    config: ConfigView,
    key: Seq<char>,
    license: Seq<char>,
    eol: Eol,
) -> FormattedView {
    let format = format_for(config, key);
    match format.file {
        Some(path) => FormattedView::File(path),
        None => FormattedView::Text(
            formatted_text(license, format, config.trim_trailing_whitespace, eol),
        ),
    }
}

/// Writes the license in the formats of a configuration.
pub struct Formatter {
    pub formats: StringHashMap<Format>,
    pub default_format: Format,
    pub trim_trailing_whitespace: bool,
}

impl Formatter {
    /// Whether the formatter is that of a configuration.
    pub open spec fn is_for(self, config: ConfigView) -> bool {
        &&& formats_view(self.formats@) == all_formats(config)
        &&& self.default_format@ == config.default_format
        &&& self.trim_trailing_whitespace == config.trim_trailing_whitespace
    }

    /// The formatter of a configuration.
    pub fn new(config: &Config) -> (formatter: Formatter)
        ensures
            formatter.is_for(config@),
    {
        let mut formats: StringHashMap<Format> = StringHashMap::new();
        let mut entries: Vec<(String, Format)> = Vec::new();
        entries.push(
            (
                "gitignore|npmignore|eslintignore|dockerignore|sh|py".to_owned(),
                each_line("# ", None),
            ),
        );
        entries.push(("html|xml|svg".to_owned(), wrapped("<!--", "-->")));
        entries.push(
            ("js|ts|css|scss|less|php|as|c|java|cpp|go|cto|acl".to_owned(), wrapped("/*", "*/")),
        );
        entries.push(("txt".to_owned(), Format::default()));
        assert(declared_view(entries@) =~= built_in());
        assert(formats_view(formats@) =~= Map::<Seq<char>, FormatView>::empty());
        add_formats(&mut formats, &entries);
        add_formats_map(&mut formats, &config.license_formats);
        Formatter {
            formats,
            default_format: config.default_format.clone(),
            trim_trailing_whitespace: config.trim_trailing_whitespace,
        }
    }

    /// The format for a key.
    pub open spec fn chosen(self, key: Seq<char>) -> FormatView {
        if self.formats@.contains_key(key) {
            self.formats@[key]@
        } else {
            self.default_format@
        }
    }

    /// A formatter of a configuration chooses the formats of it.
    pub proof fn chooses(self, config: ConfigView, key: Seq<char>)
        requires
            self.is_for(config),
        ensures
            self.chosen(key) == format_for(config, key),
    {
        assert(formats_view(self.formats@).contains_key(key) == self.formats@.contains_key(key));
    }

    /// Writes the license for a key, or says which file holds it.
    pub fn format(&self, key: &str, license: &str, eol: Eol) -> (result: Formatted)
        ensures
            result@ == match self.chosen(key@).file {
                Some(path) => FormattedView::File(path),
                None => FormattedView::Text(
                    formatted_text(
                        license@,
                        self.chosen(key@),
                        self.trim_trailing_whitespace,
                        eol,
                    ),
                ),
            },
            forall|config: ConfigView|
                self.is_for(config) ==> result@ == #[trigger] formatted(config, key@, license@, eol),
            result matches Formatted::File(location) ==> location.fits(),
    {
        let format = match self.formats.get(key) {
            Some(format) => format,
            None => &self.default_format,
        };
        assert(format@ == self.chosen(key@));
        proof {
            assert forall|config: ConfigView| self.is_for(config) implies self.chosen(key@)
                == format_for(config, key@) by {
                self.chooses(config, key@);
            }
        }
        if let Some(file) = &format.file {
            return Formatted::File(resolve_path(file.as_str()));
        }
        let bare = trim_license_line_endings(license);
        let middle = match &format.each_line {
            Some(each) => format_lines(bare, each, self.trim_trailing_whitespace, eol),
            None => bare.to_owned(),
        };
        let top = match &format.prepend {
            Some(text) => text.clone().concat(eol.as_str()).concat(middle.as_str()),
            None => middle,
        };
        let whole = match &format.append {
            Some(text) => top.concat(eol.as_str()).concat(text.as_str()),
            None => top,
        };
        Formatted::Text(whole)
    }
}

/// Writes each line of a text in a format.
fn format_lines(text: &str, each: &LineFormat, trim: bool, eol: Eol) -> (result: String)
    ensures
        result@ == joined(
            lines(text@).map_values(|line: Seq<char>| formatted_line(line, each@, trim)),
            eol.chars(),
        ),
{
    let list = split_lines(text);
    let ghost all = lines(text@).map_values(|line: Seq<char>| formatted_line(line, each@, trim));
    let mut out: Vec<String> = Vec::new();
    let mut at: usize = 0;
    while at < list.len()
        invariant
            at <= list@.len(),
            texts(list@) == lines(text@),
            all == lines(text@).map_values(
                |line: Seq<char>| formatted_line(line, each@, trim),
            ),
            texts(out@) == all.take(at as int),
        decreases list@.len() - at,
    {
        let ghost before = texts(out@);
        assert(lines(text@)[at as int] == list@[at as int]@);
        let mut line = match &each.prepend {
            Some(prepend) => prepend.clone().concat(list[at].as_str()),
            None => list[at].clone(),
        };
        if let Some(append) = &each.append {
            line.append(append.as_str());
        }
        if trim {
            line = trim_end(line.as_str(), Trim::WhiteSpace);
        }
        assert(line@ == all[at as int]);
        out.push(line);
        at = at + 1;
        assert(texts(out@) == before.push(all[at - 1]));
        assert(all.take(at as int) == before.push(all[at - 1]));
    }
    assert(all.take(at as int) == all);
    join(&out, eol.as_str())
}

// ---- Laws ----

/// Whether a declaration is for a kind of file.
pub open spec fn declares(keys: Seq<char>, name: Seq<char>) -> bool {
    exists|i: int|
        0 <= i < pieces(keys, '|').len() && key_name(#[trigger] pieces(keys, '|')[i]) == name
}

proof fn with_keys_holds(
    formats: Map<Seq<char>, FormatView>,
    keys: Seq<Seq<char>>,
    format: FormatView,
    name: Seq<char>,
)
    ensures
        (exists|i: int| 0 <= i < keys.len() && key_name(#[trigger] keys[i]) == name) ==> {
            &&& with_keys(formats, keys, format).contains_key(name)
            &&& with_keys(formats, keys, format)[name] == format
        },
        !(exists|i: int| 0 <= i < keys.len() && key_name(#[trigger] keys[i]) == name) ==> {
            &&& with_keys(formats, keys, format).contains_key(name) == formats.contains_key(name)
            &&& with_keys(formats, keys, format)[name] == formats[name]
        },
    decreases keys.len(),
{
    if keys.len() > 0 {
        let front = keys.drop_last();
        with_keys_holds(formats, front, format, name);
        assert(keys[keys.len() - 1] == keys.last());
        if exists|i: int| 0 <= i < keys.len() && key_name(#[trigger] keys[i]) == name {
            let i = choose|i: int| 0 <= i < keys.len() && key_name(#[trigger] keys[i]) == name;
            if i < front.len() {
                assert(front[i] == keys[i]);
            }
        } else {
            assert(forall|i: int| 0 <= i < front.len() ==> #[trigger] front[i] == keys[i]);
        }
    }
}

proof fn with_declared_keeps(
    formats: Map<Seq<char>, FormatView>,
    declared: Seq<(Seq<char>, FormatView)>,
    name: Seq<char>,
)
    requires
        forall|i: int| 0 <= i < declared.len() ==> !declares(#[trigger] declared[i].0, name),
    ensures
        with_declared(formats, declared).contains_key(name) == formats.contains_key(name),
        with_declared(formats, declared)[name] == formats[name],
    decreases declared.len(),
{
    if declared.len() > 0 {
        let front = declared.drop_last();
        assert(forall|i: int| 0 <= i < front.len() ==> #[trigger] front[i] == declared[i]);
        with_declared_keeps(formats, front, name);
        let last = declared.last();
        assert(last == declared[declared.len() - 1]);
        with_keys_holds(with_declared(formats, front), pieces(last.0, '|'), last.1, name);
    }
}

proof fn with_declared_holds(
    formats: Map<Seq<char>, FormatView>,
    declared: Seq<(Seq<char>, FormatView)>,
    index: int,
    name: Seq<char>,
)
    requires
        0 <= index < declared.len(),
        declares(declared[index].0, name),
        forall|i: int| index < i < declared.len() ==> !declares(#[trigger] declared[i].0, name),
    ensures
        with_declared(formats, declared).contains_key(name),
        with_declared(formats, declared)[name] == declared[index].1,
    decreases declared.len(),
{
    let front = declared.drop_last();
    let last = declared.last();
    assert(last == declared[declared.len() - 1]);
    with_keys_holds(with_declared(formats, front), pieces(last.0, '|'), last.1, name);
    if index < front.len() {
        assert(forall|i: int| 0 <= i < front.len() ==> #[trigger] front[i] == declared[i]);
        with_declared_holds(formats, front, index, name);
    }
}

/// The last declaration of a configuration for a kind of file gives its
/// format, whatever is built in or declared before.
pub proof fn last_declaration_decides(config: ConfigView, index: int, name: Seq<char>)
    requires
        0 <= index < config.license_formats.len(),
        declares(config.license_formats[index].0, name),
        forall|i: int|
            index < i < config.license_formats.len() ==> !declares(
                #[trigger] config.license_formats[i].0,
                name,
            ),
    ensures
        format_for(config, name) == config.license_formats[index].1,
{
    with_declared_holds(
        with_declared(Map::empty(), built_in()),
        config.license_formats,
        index,
        name,
    );
}

/// A kind of file that is built in and not declared keeps the built-in
/// format.
pub proof fn undeclared_kind_keeps_built_in(config: ConfigView, index: int, name: Seq<char>)
    requires
        0 <= index < built_in().len(),
        declares(built_in()[index].0, name),
        forall|i: int|
            index < i < built_in().len() ==> !declares(#[trigger] built_in()[i].0, name),
        forall|i: int|
            0 <= i < config.license_formats.len() ==> !declares(
                #[trigger] config.license_formats[i].0,
                name,
            ),
    ensures
        format_for(config, name) == built_in()[index].1,
{
    with_declared_holds(Map::empty(), built_in(), index, name);
    with_declared_keeps(with_declared(Map::empty(), built_in()), config.license_formats, name);
}

/// A kind of file that is neither built in nor declared has the default
/// format.
pub proof fn unknown_kind_has_default(config: ConfigView, name: Seq<char>)
    requires
        forall|i: int| 0 <= i < built_in().len() ==> !declares(#[trigger] built_in()[i].0, name),
        forall|i: int|
            0 <= i < config.license_formats.len() ==> !declares(
                #[trigger] config.license_formats[i].0,
                name,
            ),
    ensures
        format_for(config, name) == config.default_format,
{
    with_declared_keeps(Map::empty(), built_in(), name);
    with_declared_keeps(with_declared(Map::empty(), built_in()), config.license_formats, name);
}

/// Where white space is trimmed, no generated line ends with white space.
pub proof fn generated_line_is_trimmed(line: Seq<char>, format: LineFormatView)
    ensures
        formatted_line(line, format, true).len() > 0 ==> !is_white_space(
            formatted_line(line, format, true).last(),
        ),
{
    let before = match format.prepend {
        Some(text) => text + line,
        None => line,
    };
    let both = match format.append {
        Some(text) => before + text,
        None => before,
    };
    trimmed_end_is_trimmed(both);
}

/// A license without its outer line endings has none left to take away.
pub proof fn without_ends_is_stable(text: Seq<char>)
    ensures
        without_ends(without_ends(text)) == without_ends(text),
{
    let first = without_first_ends(text);
    first_ends_are_gone(text);
    let both = without_last_ends(first);
    last_ends_are_gone(first);
    assert(both.len() > 0 ==> both[0] == first[0]);
    assert(both.len() > 1 ==> both[1] == first[1]);
}

proof fn first_ends_are_gone(text: Seq<char>)
    ensures
        !(without_first_ends(text).len() >= 2 && without_first_ends(text)[0] == '\r'
            && without_first_ends(text)[1] == '\n'),
        !(without_first_ends(text).len() >= 1 && without_first_ends(text)[0] == '\n'),
    decreases text.len(),
{
    if text.len() >= 2 && text[0] == '\r' && text[1] == '\n' {
        first_ends_are_gone(text.skip(2));
    } else if text.len() >= 1 && text[0] == '\n' {
        first_ends_are_gone(text.skip(1));
    }
}

proof fn last_ends_are_gone(text: Seq<char>)
    ensures
        without_last_ends(without_last_ends(text)) == without_last_ends(text),
        without_last_ends(text).is_prefix_of(text),
    decreases text.len(),
{
    let count = text.len();
    let done = without_last_ends(text);
    if count >= 2 && text[count - 2] == '\r' && text[count - 1] == '\n' {
        last_ends_are_gone(text.take(count - 2));
    } else if count >= 1 && text[count - 1] == '\n' {
        last_ends_are_gone(text.take(count - 1));
    }
    assert(text.subrange(0, done.len() as int) =~= done);
}

} // verus!
