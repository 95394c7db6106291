//! What is found at the end of a path.

use vstd::prelude::*;

use crate::startup::{
    after_last, begins_with_two, behind_prefix, extension_of, file_name, is_separator,
    last_component, lemma_portable_path, may_find, may_read, path_holds, plain_ending,
    portable_path, special_prefix, text_of, without_trailing,
};

verus! {

/// Slashes separate everywhere, backslashes on Windows, and nothing else does.
pub proof fn law_what_separates(c: char, windows: bool)
    ensures
        is_separator('/', windows),
        is_separator('\\', windows) <==> windows,
        c != '/' && c != '\\' ==> !is_separator(c, windows),
{
}

/// No character of the text separates.
pub open spec fn no_separator(text: Seq<char>, windows: bool) -> bool {
    !text.contains('/') && (windows ==> !text.contains('\\'))
}

/// A text without separators is the last component of any path that it ends behind a separator, and
/// of itself.
proof fn lemma_last_component(dir: Seq<char>, name: Seq<char>, windows: bool)
    requires
        dir.len() == 0 || is_separator(dir.last(), windows),
        no_separator(name, windows),
    ensures
        last_component(dir + name, windows) == name,
    decreases name.len(),
{
    let path = dir + name;
    if name.len() == 0 {
        assert(path =~= dir);
        assert(last_component(path, windows) =~= name);
    } else {
        let shorter = name.drop_last();
        assert(no_separator(shorter, windows)) by {
            assert forall|c: char| shorter.contains(c) implies name.contains(c) by {
                let i = choose|i: int| 0 <= i < shorter.len() && shorter[i] == c;
                assert(name[i] == c);
            }
        }
        assert(path.drop_last() =~= dir + shorter);
        assert(path.last() == name.last());
        assert(name.contains(name[name.len() - 1]));
        lemma_last_component(dir, shorter, windows);
        assert(last_component(path, windows) =~= name);
    }
}

/// A text without dots is what follows the last dot of any text that it ends behind a dot.
proof fn lemma_after_last(front: Seq<char>, rest: Seq<char>)
    requires
        front.len() == 0 || front.last() == '.',
        !rest.contains('.'),
    ensures
        after_last(front + rest, '.') == rest,
    decreases rest.len(),
{
    let text = front + rest;
    if rest.len() == 0 {
        assert(text =~= front);
        assert(after_last(text, '.') =~= rest);
    } else {
        let shorter = rest.drop_last();
        assert(!shorter.contains('.')) by {
            if shorter.contains('.') {
                let i = choose|i: int| 0 <= i < shorter.len() && shorter[i] == '.';
                assert(rest[i] == '.');
            }
        }
        assert(text.drop_last() =~= front + shorter);
        assert(text.last() == rest.last());
        assert(rest.contains(rest[rest.len() - 1]));
        lemma_after_last(front, shorter);
        assert(after_last(text, '.') =~= rest);
    }
}

/// A path that ends in a file name has nothing at its end that does not count.
proof fn lemma_nothing_trailing(dir: Seq<char>, name: Seq<char>, windows: bool)
    requires
        dir.len() == 0 || is_separator(dir.last(), windows),
        no_separator(name, windows),
        name.len() > 0,
        name != seq!['.'],
    ensures
        without_trailing(dir + name, windows) == dir + name,
        file_name(dir + name, windows) == name,
{
    let path = dir + name;
    let len = path.len() as int;
    assert(path[len - 1] == name[name.len() - 1]);
    assert(name.contains(name[name.len() - 1]));
    if name.len() > 1 {
        assert(path[len - 2] == name[name.len() - 2]);
        assert(name.contains(name[name.len() - 2]));
    } else if name[0] == '.' {
        assert(name =~= seq!['.']);
    }
    lemma_last_component(dir, name, windows);
}

/// Behind a stem and a dot at the end of a path stands the extension, whatever the stem is and
/// wherever the file is.
pub proof fn law_extension_follows_the_last_dot(
    dir: Seq<char>,
    stem: Seq<char>,
    extension: Seq<char>,
    windows: bool,
)
    requires
        dir.len() == 0 || is_separator(dir.last(), windows),
        stem.len() > 0,
        no_separator(stem, windows),
        no_separator(extension, windows),
        !extension.contains('.'),
        !(stem == seq!['.'] && extension.len() == 0),
    ensures
        extension_of(dir + stem + seq!['.'] + extension, windows) == Some(extension),
{
    let name = stem + seq!['.'] + extension;
    let path = dir + stem + seq!['.'] + extension;
    assert(path =~= dir + name);
    assert(no_separator(name, windows)) by {
        assert forall|c: char| name.contains(c) implies stem.contains(c) || c == '.'
            || extension.contains(c) by {
            let i = choose|i: int| 0 <= i < name.len() && name[i] == c;
            if i < stem.len() {
                assert(stem[i] == c);
            } else if i > stem.len() {
                assert(extension[i - stem.len() - 1] == c);
            }
        }
    }
    lemma_nothing_trailing(dir, name, windows);
    let front = stem + seq!['.'];
    assert(name =~= front + extension);
    lemma_after_last(front, extension);
    if name == seq!['.', '.'] {
        assert(name.len() == 2);
        if extension.len() == 0 {
            assert(stem =~= seq!['.']);
        }
    }
}

/// A file name without a dot, or with one only at its start, has no extension, and nor have one
/// dot and two dots.
pub proof fn law_names_without_extension(dir: Seq<char>, name: Seq<char>, windows: bool)
    requires
        dir.len() == 0 || is_separator(dir.last(), windows),
        no_separator(name, windows),
        name.len() > 0,
        !name.skip(1).contains('.') || name == seq!['.', '.'],
        name != seq!['.'] || dir.len() == 0,
    ensures
        extension_of(dir + name, windows) is None,
{
    let path = dir + name;
    if name == seq!['.'] {
        assert(path =~= name);
        lemma_last_component(dir, name, windows);
        assert(without_trailing(path, windows) == path);
        lemma_after_last(name, Seq::empty());
        assert(name + Seq::<char>::empty() =~= name);
    } else {
        lemma_nothing_trailing(dir, name, windows);
        if name != seq!['.', '.'] {
            if name[0] == '.' {
                assert(name =~= seq!['.'] + name.skip(1));
                lemma_after_last(seq!['.'], name.skip(1));
            } else {
                assert(!name.contains('.')) by {
                    if name.contains('.') {
                        let i = choose|i: int| 0 <= i < name.len() && name[i] == '.';
                        assert(name.skip(1)[i - 1] == '.');
                    }
                }
                lemma_after_last(Seq::empty(), name);
                assert(Seq::<char>::empty() + name =~= name);
            }
        }
    }
}

/// A separator at the end of a path, and a dot behind it, do not count, and an empty path has no
/// extension.
pub proof fn law_trailing_separators_do_not_count(path: Seq<char>, separator: char, windows: bool)
    requires
        is_separator(separator, windows),
    ensures
        extension_of(path + seq![separator], windows) == extension_of(path, windows),
        extension_of(path + seq![separator, '.'], windows) == extension_of(path, windows),
        extension_of(Seq::empty(), windows) is None,
{
    let longer = path + seq![separator];
    let dotted = path + seq![separator, '.'];
    assert(longer.drop_last() =~= path);
    assert(dotted.drop_last() =~= longer);
    assert(without_trailing(longer, windows) == without_trailing(path, windows));
    assert(without_trailing(dotted, windows) == without_trailing(longer, windows));
}

/// Unless a path has a colon behind its first character or begins with two separators, there is
/// nothing that could be a prefix; and without backslashes as separators there never is.
pub proof fn law_when_there_is_a_prefix(path: Seq<char>, windows: bool, prefix: int)
    requires
        may_read(path, windows, prefix),
        prefix != 0,
    ensures
        windows,
        2 <= prefix <= path.len(),
        prefix == 2 ==> path[1] == ':',
        prefix > 2 ==> (path[0] == '/' || path[0] == '\\') && (path[1] == '/' || path[1] == '\\'),
        2 < prefix < path.len() ==> path[prefix] == '/' || path[prefix] == '\\',
        prefix > 2 ==> path.subrange(2, prefix).filter(
            |c: char| c == '/' || c == '\\',
        ).len() <= 1,
{
    if prefix > 2 {
        let inside = path.subrange(2, prefix);
        lemma_same_filter(
            inside,
            |c: char| is_separator(c, true),
            |c: char| c == '/' || c == '\\',
        );
    }
}

/// What is picked from a text depends only on what is picked.
proof fn lemma_same_filter(text: Seq<char>, p: spec_fn(char) -> bool, q: spec_fn(char) -> bool)
    requires
        forall|c: char| #[trigger] p(c) == q(c),
    ensures
        text.filter(p) == text.filter(q),
    decreases text.len(),
{
    reveal(Seq::filter);
    if text.len() > 0 {
        lemma_same_filter(text.drop_last(), p, q);
        assert(p(text.last()) == q(text.last()));
    }
}

/// Four separators before the file name are more than any prefix has, and so are four backslashes
/// where the prefix is taken literally, or six if it names a server there.
pub proof fn law_behind_prefix(path: Seq<char>, end: int)
    requires
        0 <= end <= path.len(),
        path.len() > 4,
    ensures
        path[2] != '?' && path.take(end).filter(|c: char| c == '/' || c == '\\').len() > 3
            ==> behind_prefix(path, end),
        path[2] == '?' && path[4] != 'U' && path[4] != 'u' && path.take(end).filter(
            |c: char| c == '\\',
        ).len() > 3 ==> behind_prefix(path, end),
        path[2] == '?' && path.take(end).filter(|c: char| c == '\\').len() > 5 ==> behind_prefix(
            path,
            end,
        ),
{
    let before = path.take(end);
    lemma_same_filter(
        before,
        |c: char| is_separator(c, true),
        |c: char| c == '/' || c == '\\',
    );
}

/// What may be found in a path that is read everywhere in the same way is its extension, and paths
/// without backslashes and colons that do not begin with two slashes are read so.
pub proof fn law_portable_path_has_one_extension(path: Seq<char>, extension: Option<Seq<char>>)
    requires
        may_find(path, extension),
        forall|i: int|
            0 <= i < path.len() ==> #[trigger] path[i] != '\\' && path[i] != ':',
        path.len() >= 2 ==> path[0] != '/' || path[1] != '/',
    ensures
        portable_path(path),
        extension == extension_of(path, false),
{
    assert(portable_path(path));
    let (windows, prefix) = choose|windows: bool, prefix: int| #[trigger]
        may_read(path, windows, prefix) && extension_of(path.skip(prefix), windows) == extension;
    lemma_portable_path(path, windows, prefix);
}

/// A path ends plainly if it ends in a stem, a dot and an extension, neither of them with a
/// separator, a colon or another dot where they meet, and no prefix can take in the dot: none can
/// unless the path begins with two separators.
pub proof fn law_plain_endings(dir: Seq<char>, stem: Seq<char>, extension: Seq<char>)
    requires
        stem.len() > 0,
        stem.last() != '/' && stem.last() != '\\' && stem.last() != ':' && stem.last() != '.',
        !extension.contains('/') && !extension.contains('\\') && !extension.contains(':')
            && !extension.contains('.'),
        !begins_with_two(dir + stem + seq!['.'] + extension) || behind_prefix(
            dir + stem + seq!['.'] + extension,
            (dir.len() + stem.len()) as int,
        ),
    ensures
        plain_ending(dir + stem + seq!['.'] + extension),
        after_last(dir + stem + seq!['.'] + extension, '.') == extension,
{
    let front = dir + stem + seq!['.'];
    let path = front + extension;
    assert(front.last() == '.');
    lemma_after_last(front, extension);
    let dot = path.len() - extension.len() - 1;
    assert(path[dot - 1] == stem.last());
    assert(behind_prefix(path, dot));
}

/// Only a path that begins with two separators and a question mark or a dot may be one that is not
/// read by components.
pub proof fn law_special_prefixes(path: Seq<char>)
    ensures
        begins_with_two(path) ==> path.len() >= 2 && (path[0] == '/' || path[0] == '\\') && (path[1]
            == '/' || path[1] == '\\'),
        special_prefix(path) ==> begins_with_two(path) && path.len() > 2 && (path[2] == '?'
            || path[2] == '.'),
{
}

/// An extension that a path holds stands in it behind a dot, and a text is its characters.
pub proof fn law_extension_is_held(path: Seq<char>, extension: Seq<char>, text: String)
    ensures
        path_holds(path, extension) ==> path.contains('.') && path.len() > extension.len(),
        text_of(Some(text)) == Some(text@),
        text_of(None) is None,
{
    if path_holds(path, extension) {
        let i = choose|i: int|
            0 <= i && i + 1 + extension.len() <= path.len() && #[trigger] path.subrange(
                i,
                i + 1 + extension.len(),
            ) == seq!['.'] + extension;
        assert(path.subrange(i, i + 1 + extension.len())[0] == '.');
        assert(path[i] == '.');
    }
}

} // verus!
