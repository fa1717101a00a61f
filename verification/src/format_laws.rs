//! What the license looks like for a kind of file.
use vstd::prelude::*;

use crate::config::{ConfigView, FormatView, LineFormatView};
use crate::format::{
    built_in, declares, format_for, formatted, formatted_line, formatted_text, key_name,
    undeclared_kind_keeps_built_in, unknown_kind_has_default, without_ends, without_first_ends,
    without_last_ends, FormattedView,
};
use crate::text::{is_white_space, joined, lines, occurs_in, pieces, Eol, Trim};
use crate::text_lemmas::{
    pieces_of_joined, trimmed_end_cuts_white_space, trimmed_end_is_prefix, trimmed_end_is_trimmed,
};

verus! {

// ---- The bare license ----

/// Whether a text is made of line endings.
pub open spec fn only_line_ends(text: Seq<char>) -> bool {
    forall|i: int|
        0 <= i < text.len() ==> #[trigger] text[i] == '\n' || (text[i] == '\r' && i + 1 < text.len()
            && text[i + 1] == '\n')
}

/// Line endings behind line endings are line endings.
proof fn line_ends_join(left: Seq<char>, right: Seq<char>)
    requires
        only_line_ends(left),
        only_line_ends(right),
    ensures
        only_line_ends(left + right),
{
    let all = left + right;
    assert forall|i: int| 0 <= i < all.len() implies #[trigger] all[i] == '\n' || (all[i] == '\r' && i
        + 1 < all.len() && all[i + 1] == '\n') by {
        if i < left.len() {
            assert(all[i] == left[i]);
            if i + 1 < left.len() {
                assert(all[i + 1] == left[i + 1]);
            }
        } else {
            let k = i - left.len();
            assert(all[i] == right[k]);
            if k + 1 < right.len() {
                assert(all[i + 1] == right[k + 1]);
            }
        }
    }
}

proof fn first_ends_are_cut(text: Seq<char>) -> (head: Seq<char>)
    ensures
        only_line_ends(head),
        text == head + without_first_ends(text),
        ({
            let left = without_first_ends(text);
            &&& !(left.len() > 0 && left[0] == '\n')
            &&& !(left.len() > 1 && left[0] == '\r' && left[1] == '\n')
        }),
    decreases text.len(),
{
    if text.len() >= 2 && text[0] == '\r' && text[1] == '\n' {
        let more = first_ends_are_cut(text.skip(2));
        let pair = seq!['\r', '\n'];
        line_ends_join(pair, more);
        assert(text =~= pair + text.skip(2));
        assert(text =~= (pair + more) + without_first_ends(text));
        pair + more
    } else if text.len() >= 1 && text[0] == '\n' {
        let more = first_ends_are_cut(text.skip(1));
        let feed = seq!['\n'];
        line_ends_join(feed, more);
        assert(text =~= feed + text.skip(1));
        assert(text =~= (feed + more) + without_first_ends(text));
        feed + more
    } else {
        assert(text =~= Seq::<char>::empty() + text);
        Seq::empty()
    }
}

proof fn last_ends_are_cut(text: Seq<char>) -> (tail: Seq<char>)
    ensures
        only_line_ends(tail),
        text == without_last_ends(text) + tail,
        ({
            let left = without_last_ends(text);
            !(left.len() > 0 && left.last() == '\n')
        }),
    decreases text.len(),
{
    let count = text.len();
    if count >= 2 && text[count - 2] == '\r' && text[count - 1] == '\n' {
        let more = last_ends_are_cut(text.take(count - 2));
        let pair = seq!['\r', '\n'];
        line_ends_join(more, pair);
        assert(text =~= text.take(count - 2) + pair);
        assert(text =~= without_last_ends(text) + (more + pair));
        more + pair
    } else if count >= 1 && text[count - 1] == '\n' {
        let more = last_ends_are_cut(text.take(count - 1));
        let feed = seq!['\n'];
        line_ends_join(more, feed);
        assert(text =~= text.take(count - 1) + feed);
        assert(text =~= without_last_ends(text) + (more + feed));
        more + feed
    } else {
        assert(text =~= text + Seq::<char>::empty());
        Seq::empty()
    }
}

/// The bare license is the license without the line endings at its start and
/// at its end, and all of them: what is cut off is returned.
pub proof fn the_bare_license(license: Seq<char>) -> (ends: (Seq<char>, Seq<char>))
    ensures
        only_line_ends(ends.0),
        only_line_ends(ends.1),
        license == ends.0 + without_ends(license) + ends.1,
        ({
            let bare = without_ends(license);
            &&& !(bare.len() > 0 && bare[0] == '\n')
            &&& !(bare.len() > 1 && bare[0] == '\r' && bare[1] == '\n')
            &&& !(bare.len() > 0 && bare.last() == '\n')
        }),
{
    let head = first_ends_are_cut(license);
    let middle = without_first_ends(license);
    let tail = last_ends_are_cut(middle);
    let bare = without_ends(license);
    assert(license =~= head + bare + tail);
    if bare.len() > 0 {
        assert(bare[0] == middle[0]);
    }
    if bare.len() > 1 {
        assert(bare[1] == middle[1]);
    }
    (head, tail)
}

// ---- The written license ----

/// A text, or nothing.
pub open spec fn text_or_nothing(text: Option<Seq<char>>) -> Seq<char> {
    match text {
        Some(some) => some,
        None => Seq::empty(),
    }
}

/// Each line is written between the texts that a format has for a line; where
/// white space is trimmed, without what it ends with.
pub proof fn a_line_is_written(line: Seq<char>, format: LineFormatView, trim: bool)
    ensures
        ({
            let full = text_or_nothing(format.prepend) + line + text_or_nothing(format.append);
            let written = formatted_line(line, format, trim);
            &&& !trim ==> written == full
            &&& trim ==> {
                &&& written.is_prefix_of(full)
                &&& written.len() > 0 ==> !is_white_space(written.last())
                &&& forall|i: int|
                    written.len() <= i < full.len() ==> is_white_space(#[trigger] full[i])
            }
        }),
{
    let full = text_or_nothing(format.prepend) + line + text_or_nothing(format.append);
    let before = match format.prepend {
        Some(text) => text + line,
        None => line,
    };
    let both = match format.append {
        Some(text) => before + text,
        None => before,
    };
    assert(both =~= full);
    if trim {
        trimmed_end_is_prefix(full, Trim::WhiteSpace);
        trimmed_end_is_trimmed(full);
        trimmed_end_cuts_white_space(full);
    }
}

/// Whatever else a format holds, the license is written between its opening
/// and its closing line: the bare license, or, where the format has texts for
/// each line, the lines of it with those texts round each. What is written
/// between is returned.
pub proof fn a_license_is_written_between(
    license: Seq<char>,
    format: FormatView,
    trim: bool,
    eol: Eol,
) -> (middle: Seq<char>)
    ensures
        ({
            let text = formatted_text(license, format, trim, eol);
            let top = match format.prepend {
                Some(opening) => opening + eol.chars(),
                None => Seq::empty(),
            };
            let bottom = match format.append {
                Some(closing) => eol.chars() + closing,
                None => Seq::empty(),
            };
            &&& text == top + middle + bottom
            &&& top.is_prefix_of(text)
            &&& bottom.is_suffix_of(text)
            &&& match format.each_line {
                None => middle == without_ends(license),
                Some(each) => exists|list: Seq<Seq<char>>|
                    {
                        &&& middle == #[trigger] joined(list, eol.chars())
                        &&& list.len() == lines(without_ends(license)).len()
                        &&& forall|i: int|
                            0 <= i < list.len() ==> #[trigger] list[i] == formatted_line(
                                lines(without_ends(license))[i],
                                each,
                                trim,
                            )
                    },
            }
        }),
{
    let text = formatted_text(license, format, trim, eol);
    let bare = without_ends(license);
    let top = match format.prepend {
        Some(opening) => opening + eol.chars(),
        None => Seq::empty(),
    };
    let bottom = match format.append {
        Some(closing) => eol.chars() + closing,
        None => Seq::empty(),
    };
    let middle = match format.each_line {
        Some(each) => {
            let list = lines(bare).map_values(|line: Seq<char>| formatted_line(line, each, trim));
            assert(joined(list, eol.chars()) == joined(list, eol.chars()));
            joined(list, eol.chars())
        },
        None => bare,
    };
    assert(text =~= top + middle + bottom);
    assert(text.subrange(0, top.len() as int) =~= top);
    assert(text.subrange(text.len() - bottom.len(), text.len() as int) =~= bottom);
    middle
}

/// A format that names a file stands for that file, whatever else it holds; any
/// other format is written out.
pub proof fn a_named_file_is_read(
    config: ConfigView,
    key: Seq<char>,
    license: Seq<char>,
    eol: Eol,
)
    ensures
        formatted(config, key, license, eol) == match format_for(config, key).file {
            Some(path) => FormattedView::File(path),
            None => FormattedView::Text(
                formatted_text(
                    license,
                    format_for(config, key),
                    config.trim_trailing_whitespace,
                    eol,
                ),
            ),
        },
{
}

// ---- Kinds of file ----

/// A declaration is for the extensions that stand in it between bars, and for
/// the names that stand there behind a `^`.
pub proof fn what_a_declaration_is_for(keys: Seq<Seq<char>>, name: Seq<char>)
    requires
        keys.len() > 0,
        !occurs_in(keys, '|'),
    ensures
        declares(joined(keys, seq!['|']), name) <==> exists|i: int|
            0 <= i < keys.len() && (if (#[trigger] keys[i]).len() > 0 && keys[i][0] == '^' {
                name == keys[i].skip(1)
            } else {
                name == seq!['.'] + keys[i]
            }),
{
    pieces_of_joined(keys, '|');
    let list = pieces(joined(keys, seq!['|']), '|');
    assert(list == keys);
    if declares(joined(keys, seq!['|']), name) {
        let i = choose|i: int| 0 <= i < list.len() && key_name(#[trigger] list[i]) == name;
        assert(key_name(keys[i]) == name);
    }
    if exists|i: int|
        0 <= i < keys.len() && (if (#[trigger] keys[i]).len() > 0 && keys[i][0] == '^' {
            name == keys[i].skip(1)
        } else {
            name == seq!['.'] + keys[i]
        }) {
        let i = choose|i: int|
            0 <= i < keys.len() && (if (#[trigger] keys[i]).len() > 0 && keys[i][0] == '^' {
                name == keys[i].skip(1)
            } else {
                name == seq!['.'] + keys[i]
            });
        assert(key_name(list[i]) == name);
    }
}

// ---- What is built in ----

/// Whether a kind of file is that of one of some extensions.
pub open spec fn is_extension(name: Seq<char>, list: Seq<Seq<char>>) -> bool {
    exists|i: int| 0 <= i < list.len() && name == seq!['.'] + #[trigger] list[i]
}

/// Whether a key is an extension and can stand between bars.
spec fn is_plain_key(key: Seq<char>) -> bool {
    &&& key.len() > 0
    &&& key[0] != '^'
    &&& !key.contains('|')
}

proof fn plain_keys_are_extensions(list: Seq<Seq<char>>, name: Seq<char>)
    requires
        list.len() > 0,
        forall|i: int| 0 <= i < list.len() ==> is_plain_key(#[trigger] list[i]),
    ensures
        declares(joined(list, seq!['|']), name) == is_extension(name, list),
{
    assert(!occurs_in(list, '|')) by {
        if occurs_in(list, '|') {
            let i = choose|i: int| 0 <= i < list.len() && (#[trigger] list[i]).contains('|');
            assert(is_plain_key(list[i]));
        }
    }
    what_a_declaration_is_for(list, name);
    if declares(joined(list, seq!['|']), name) {
        let i = choose|i: int|
            0 <= i < list.len() && (if (#[trigger] list[i]).len() > 0 && list[i][0] == '^' {
                name == list[i].skip(1)
            } else {
                name == seq!['.'] + list[i]
            });
        assert(is_plain_key(list[i]));
        assert(name == seq!['.'] + list[i]);
    }
    if is_extension(name, list) {
        let i = choose|i: int| 0 <= i < list.len() && name == seq!['.'] + #[trigger] list[i];
        assert(is_plain_key(list[i]));
        assert(list[i].len() > 0 && list[i][0] != '^');
    }
}

/// The extensions of files whose comments start with a number sign.
pub open spec fn number_sign_extensions() -> Seq<Seq<char>> {
    seq!["gitignore"@, "npmignore"@, "eslintignore"@, "dockerignore"@, "sh"@, "py"@]
}

proof fn number_sign_extensions_are_declared(name: Seq<char>)
    ensures
        declares("gitignore|npmignore|eslintignore|dockerignore|sh|py"@, name) == is_extension(name, number_sign_extensions()),
{
    reveal_strlit("gitignore");
    reveal_strlit("npmignore");
    reveal_strlit("eslintignore");
    reveal_strlit("dockerignore");
    reveal_strlit("sh");
    reveal_strlit("py");
    reveal_strlit("gitignore|npmignore|eslintignore|dockerignore|sh|py");
    let list = number_sign_extensions();
    assert forall|i: int| 0 <= i < list.len() implies is_plain_key(#[trigger] list[i]) by {}
    reveal_with_fuel(joined, 7);
    assert(joined(list, seq!['|']) =~= "gitignore|npmignore|eslintignore|dockerignore|sh|py"@);
    plain_keys_are_extensions(list, name);
}

/// The extensions of files whose comments are those of markup.
pub open spec fn markup_extensions() -> Seq<Seq<char>> {
    seq!["html"@, "xml"@, "svg"@]
}

proof fn markup_extensions_are_declared(name: Seq<char>)
    ensures
        declares("html|xml|svg"@, name) == is_extension(name, markup_extensions()),
{
    reveal_strlit("html");
    reveal_strlit("xml");
    reveal_strlit("svg");
    reveal_strlit("html|xml|svg");
    let list = markup_extensions();
    assert forall|i: int| 0 <= i < list.len() implies is_plain_key(#[trigger] list[i]) by {}
    reveal_with_fuel(joined, 4);
    assert(joined(list, seq!['|']) =~= "html|xml|svg"@);
    plain_keys_are_extensions(list, name);
}

/// The extensions of files that have block comments.
pub open spec fn block_extensions() -> Seq<Seq<char>> {
    seq!["js"@, "ts"@, "css"@, "scss"@, "less"@, "php"@, "as"@, "c"@, "java"@, "cpp"@, "go"@, "cto"@, "acl"@]
}

proof fn block_extensions_are_declared(name: Seq<char>)
    ensures
        declares("js|ts|css|scss|less|php|as|c|java|cpp|go|cto|acl"@, name) == is_extension(name, block_extensions()),
{
    reveal_strlit("js");
    reveal_strlit("ts");
    reveal_strlit("css");
    reveal_strlit("scss");
    reveal_strlit("less");
    reveal_strlit("php");
    reveal_strlit("as");
    reveal_strlit("c");
    reveal_strlit("java");
    reveal_strlit("cpp");
    reveal_strlit("go");
    reveal_strlit("cto");
    reveal_strlit("acl");
    reveal_strlit("js|ts|css|scss|less|php|as|c|java|cpp|go|cto|acl");
    let list = block_extensions();
    assert forall|i: int| 0 <= i < list.len() implies is_plain_key(#[trigger] list[i]) by {}
    reveal_with_fuel(joined, 14);
    assert(joined(list, seq!['|']) =~= "js|ts|css|scss|less|php|as|c|java|cpp|go|cto|acl"@);
    plain_keys_are_extensions(list, name);
}

/// The extensions of files that are plain text.
pub open spec fn text_extensions() -> Seq<Seq<char>> {
    seq!["txt"@]
}

proof fn text_extensions_are_declared(name: Seq<char>)
    ensures
        declares("txt"@, name) == is_extension(name, text_extensions()),
{
    reveal_strlit("txt");
    let list = text_extensions();
    assert forall|i: int| 0 <= i < list.len() implies is_plain_key(#[trigger] list[i]) by {}
    reveal_with_fuel(joined, 2);
    assert(joined(list, seq!['|']) =~= "txt"@);
    plain_keys_are_extensions(list, name);
}

/// A kind of file for which nothing is declared: the license is a comment in
/// the files whose comments are known, stands bare in plain text, and has the
/// default format in every other file.
pub proof fn what_is_built_in(config: ConfigView, name: Seq<char>)
    requires
        forall|i: int|
            0 <= i < config.license_formats.len() ==> !declares(
                #[trigger] config.license_formats[i].0,
                name,
            ),
    ensures
        format_for(config, name) == if is_extension(name, text_extensions()) {
            FormatView { append: None, prepend: None, each_line: None, file: None }
        } else if is_extension(name, block_extensions()) {
            FormatView {
                append: Some("*/"@),
                prepend: Some("/*"@),
                each_line: None,
                file: None,
            }
        } else if is_extension(name, markup_extensions()) {
            FormatView {
                append: Some("-->"@),
                prepend: Some("<!--"@),
                each_line: None,
                file: None,
            }
        } else if is_extension(name, number_sign_extensions()) {
            FormatView {
                append: None,
                prepend: None,
                each_line: Some(LineFormatView { append: None, prepend: Some("# "@) }),
                file: None,
            }
        } else {
            config.default_format
        },
{
    number_sign_extensions_are_declared(name);
    markup_extensions_are_declared(name);
    block_extensions_are_declared(name);
    text_extensions_are_declared(name);
    let list = built_in();
    assert(list.len() == 4);
    if is_extension(name, text_extensions()) {
        undeclared_kind_keeps_built_in(config, 3, name);
    } else if is_extension(name, block_extensions()) {
        undeclared_kind_keeps_built_in(config, 2, name);
    } else if is_extension(name, markup_extensions()) {
        undeclared_kind_keeps_built_in(config, 1, name);
    } else if is_extension(name, number_sign_extensions()) {
        undeclared_kind_keeps_built_in(config, 0, name);
    } else {
        unknown_kind_has_default(config, name);
    }
}

} // verus!
