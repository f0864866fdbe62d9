//! Paths of files, as text.

use vstd::prelude::*;

use crate::text::{append, to_chars};

verus! {

/// A name below a directory. An absolute name stands for itself.
pub open spec fn below(dir: Seq<char>, name: Seq<char>) -> Seq<char> {
    if name.len() > 0 && name[0] == '/' {
        name
    } else if dir.len() == 0 || dir.last() == '/' {
        dir + name
    } else {
        dir.push('/') + name
    }
}

/// A directory that may not be known, as contracts speak of it.
pub open spec fn text_of(s: Option<&str>) -> Option<Seq<char>> {
    match s {
        Some(s) => Some(s@),
        None => None,
    }
}

pub fn join_path(dir: &str, name: &str) -> (r: String)
    ensures
        r@ == below(dir@, name@),
{
    let n = to_chars(name);
    if n.len() > 0 && n[0] == '/' {
        return name.to_owned();
    }
    let d = to_chars(dir);
    let mut out = dir.to_owned();
    if d.len() > 0 && d[d.len() - 1] != '/' {
        out.push('/');
    }
    append(&mut out, name);
    out
}

// ---------------------------------------------------------------------------
// Names and extensions
// ---------------------------------------------------------------------------

/// Where `c` stands last in `s`, or -1 where it does not.
pub open spec fn last_at(s: Seq<char>, c: char) -> int
    decreases s.len(),
{
    if s.len() == 0 {
        -1
    } else if s.last() == c {
        s.len() - 1
    } else {
        last_at(s.drop_last(), c)
    }
}

/// What follows the last separator of a path.
pub open spec fn last_part(path: Seq<char>) -> Seq<char> {
    path.skip(last_at(path, '/') + 1)
}

/// The last part of a path is the name of a file or a directory.
pub open spec fn has_name(path: Seq<char>) -> bool {
    let name = last_part(path);
    name.len() > 0 && name != "."@ && name != ".."@
}

/// The length of a name without its extension: up to its last dot, unless that is where the name
/// starts.
pub open spec fn stem_len(name: Seq<char>) -> int {
    if last_at(name, '.') <= 0 {
        name.len() as int
    } else {
        last_at(name, '.')
    }
}

/// The name that a path ends in, without its extension.
pub open spec fn stem(path: Seq<char>) -> Seq<char> {
    last_part(path).take(stem_len(last_part(path)))
}

/// The path with another extension, or with one where it has none.
pub open spec fn extended(path: Seq<char>, extension: Seq<char>) -> Seq<char> {
    path.take(last_at(path, '/') + 1) + stem(path) + "."@ + extension
}

/// The last part of a path is a name that can take another extension. One with nothing but a dot
/// before its extension cannot: without the extension it would stand for the directory above.
pub open spec fn can_extend(path: Seq<char>) -> bool {
    has_name(path) && stem(path) != "."@
}

/// What `std::path::Path::with_extension` yields for a path that ends in no such name.
pub uninterp spec fn nameless_extended(path: Seq<char>, extension: Seq<char>) -> Seq<char>;

/// What a path with another extension comes to.
pub open spec fn re_extended(path: Seq<char>, extension: Seq<char>) -> Seq<char> {
    if can_extend(path) {
        extended(path, extension)
    } else {
        nameless_extended(path, extension)
    }
}

/// `std::path::Path::with_extension` on a Unix path: the extension of the name at the end of the
/// path is replaced, or added where there is none. For a path that ends in a separator, `.` or
/// `..`, or is empty, and for a name such as `..y`, the result is only named.
#[verifier::external_body]
pub(crate) fn with_extension(path: &str, extension: &str) -> (r: String)
    requires
        extension@.len() > 0,
        !extension@.contains('/'),
    ensures
        can_extend(path@) ==> r@ == extended(path@, extension@),
        !can_extend(path@) ==> r@ == nameless_extended(path@, extension@),
{
    std::path::Path::new(path).with_extension(extension).to_string_lossy().into_owned()
}

/// What `std::path::Path::file_stem` yields for a path whose last part is no name.
pub uninterp spec fn nameless_stem(path: Seq<char>) -> Seq<char>;

/// The stem of any path.
pub open spec fn stem_of(path: Seq<char>) -> Seq<char> {
    if has_name(path) {
        stem(path)
    } else {
        nameless_stem(path)
    }
}

/// `std::path::Path::file_stem` on a Unix path: the name at the end of the path without its
/// extension. For a path that ends in a separator, `.` or `..`, or is empty, the result is only
/// named.
#[verifier::external_body]
pub(crate) fn file_stem(path: &str) -> (r: String)
    ensures
        has_name(path@) ==> r@ == stem(path@),
        !has_name(path@) ==> r@ == nameless_stem(path@),
{
    std::path::Path::new(path).file_stem().unwrap_or_default().to_string_lossy().into_owned()
}

pub proof fn lemma_last_at(s: Seq<char>, c: char, i: int)
    requires
        0 <= i < s.len(),
        s[i] == c,
        forall|k: int| i < k < s.len() ==> #[trigger] s[k] != c,
    ensures
        last_at(s, c) == i,
    decreases s.len(),
{
    if i < s.len() - 1 {
        assert(s[s.len() - 1] != c);
        assert(forall|k: int| i < k < s.len() - 1 ==> #[trigger] s.drop_last()[k] == s[k]);
        lemma_last_at(s.drop_last(), c, i);
    }
}

// ---------------------------------------------------------------------------
// Laws
// ---------------------------------------------------------------------------

/// A name is put below a directory with one separator between them; an absolute name stands for
/// itself.
pub proof fn law_names_are_put_below_directories(dir: Seq<char>, name: Seq<char>)
    ensures
        name.len() > 0 && name[0] == '/' ==> below(dir, name) == name,
        !(name.len() > 0 && name[0] == '/') && dir.len() > 0 && dir.last() != '/' ==> below(
            dir,
            name,
        ) == dir + seq!['/'] + name,
        !(name.len() > 0 && name[0] == '/') && dir.len() > 0 && dir.last() == '/' ==> below(
            dir,
            name,
        ) == dir + name,
        !(name.len() > 0 && name[0] == '/') && dir.len() == 0 ==> below(dir, name) == name,
{
    assert(dir.push('/') + name =~= dir + seq!['/'] + name);
    assert(dir.len() == 0 ==> dir + name =~= name);
}

/// An extension is what follows the last dot of a name. It is what another one replaces, and the
/// stem is what stands before it.
pub proof fn law_extensions_are_replaced(
    dir: Seq<char>,
    before: Seq<char>,
    old_ext: Seq<char>,
    new_ext: Seq<char>,
)
    requires
        dir.len() == 0 || dir.last() == '/',
        before.len() > 0,
        !before.contains('/'),
        !old_ext.contains('/'),
        !old_ext.contains('.'),
        before != "."@,
    ensures
        stem_of(dir + (before.push('.') + old_ext)) == before,
        re_extended(dir + (before.push('.') + old_ext), new_ext) == dir + before + "."@ + new_ext,
{
    reveal_strlit(".");
    reveal_strlit("..");
    let name = before.push('.') + old_ext;
    let path = dir + name;
    assert(!name.contains('/')) by {
        if name.contains('/') {
            let i = name.index_of('/');
            if i < before.len() {
                assert(before[i] == '/');
            } else if i > before.len() {
                assert(old_ext[i - before.len() - 1] == '/');
            }
        }
    }
    lemma_last_part(dir, name);
    assert forall|k: int| before.len() < k < name.len() implies #[trigger] name[k] != '.' by {
        assert(name[k] == old_ext[k - before.len() - 1]);
        assert(old_ext.contains(name[k]));
    }
    lemma_last_at(name, '.', before.len() as int);
    assert(name.take(before.len() as int) =~= before);
    assert(has_name(path)) by {
        if name == ".."@ {
            assert(name[0] == before[0]);
            assert(before =~= "."@);
        }
        assert(name.len() > "."@.len());
    }
    assert(path.take(last_at(path, '/') + 1) =~= dir);
}

/// A name without a dot, or with none but at its start, has no extension: it is its own stem, and
/// one is added to it.
pub proof fn law_missing_extensions_are_added(
    dir: Seq<char>,
    name: Seq<char>,
    new_ext: Seq<char>,
)
    requires
        dir.len() == 0 || dir.last() == '/',
        name.len() > 0,
        name != "."@,
        !name.contains('/'),
        !name.skip(1).contains('.'),
    ensures
        stem_of(dir + name) == name,
        re_extended(dir + name, new_ext) == dir + name + "."@ + new_ext,
{
    reveal_strlit(".");
    reveal_strlit("..");
    let path = dir + name;
    lemma_last_part(dir, name);
    if name[0] == '.' {
        assert forall|k: int| 0 < k < name.len() implies #[trigger] name[k] != '.' by {
            assert(name[k] == name.skip(1)[k - 1]);
            assert(name.skip(1).contains(name[k]));
        }
        lemma_last_at(name, '.', 0);
    } else {
        assert(!name.contains('.')) by {
            if name.contains('.') {
                let i = name.index_of('.');
                assert(name.skip(1)[i - 1] == '.');
            }
        }
        lemma_not_at(name, '.');
    }
    assert(name.take(name.len() as int) =~= name);
    assert(has_name(path)) by {
        if name == ".."@ {
            assert(name.skip(1)[0] == '.');
        }
    }
    assert(path.take(last_at(path, '/') + 1) =~= dir);
}

proof fn lemma_not_at(s: Seq<char>, c: char)
    requires
        !s.contains(c),
    ensures
        last_at(s, c) == -1,
    decreases s.len(),
{
    if s.len() > 0 {
        assert(s.contains(s[s.len() - 1]));
        assert(!s.drop_last().contains(c)) by {
            if s.drop_last().contains(c) {
                let i = s.drop_last().index_of(c);
                assert(s[i] == c);
            }
        }
        lemma_not_at(s.drop_last(), c);
    }
}

proof fn lemma_last_part(dir: Seq<char>, name: Seq<char>)
    requires
        dir.len() == 0 || dir.last() == '/',
        !name.contains('/'),
    ensures
        last_at(dir + name, '/') == dir.len() - 1,
        last_part(dir + name) == name,
{
    let path = dir + name;
    if dir.len() == 0 {
        assert(path =~= name);
        lemma_not_at(name, '/');
    } else {
        assert forall|k: int| dir.len() - 1 < k < path.len() implies #[trigger] path[k] != '/' by {
            assert(path[k] == name[k - dir.len()]);
            assert(name.contains(path[k]));
        }
        lemma_last_at(path, '/', dir.len() - 1);
    }
    assert(last_part(path) =~= name);
}

} // verus!
