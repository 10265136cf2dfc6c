//! Paths of a Unix file system, as texts.
use vstd::prelude::*;

use crate::text::{begins_with, chars_of, opt_text, same_text, slice_text, starts_with, texts};

verus! {

/// Whether a path starts at the root.
pub open spec fn is_absolute_path(path: Seq<char>) -> bool {
    path.len() > 0 && path[0] == '/'
}

/// Whether a path starts at the root.
pub fn is_absolute(path: &str) -> (absolute: bool)
    ensures
        absolute == is_absolute_path(path@),
{
    let chars = chars_of(path);
    chars.len() > 0 && chars[0] == '/'
}

/// `path` as seen from `base`: itself where it is absolute, else below `base`.
pub open spec fn joined(base: Seq<char>, path: Seq<char>) -> Seq<char> {
    if is_absolute_path(path) {
        path
    } else if base.len() == 0 || base.last() == '/' {
        base + path
    } else {
        base.push('/') + path
    }
}

/// `path` as seen from `base`.
pub fn join_path(base: &str, path: &str) -> (out: String)
    ensures
        out@ == joined(base@, path@),
{
    if is_absolute(path) {
        return path.to_owned();
    }
    let chars = chars_of(base);
    let mut out = base.to_owned();
    if chars.len() > 0 && chars[chars.len() - 1] != '/' {
        out.push('/');
    }
    out.append(path);
    out
}

/// The pieces of a text between one character and the next of its kind.
pub open spec fn split_on(s: Seq<char>, c: char) -> Seq<Seq<char>>
    decreases s.len(),
{
    if s.len() == 0 {
        seq![Seq::empty()]
    } else {
        let front = split_on(s.drop_last(), c);
        if s.last() == c {
            front.push(Seq::empty())
        } else {
            front.drop_last().push(front.last().push(s.last()))
        }
    }
}

/// There is at least one piece.
pub proof fn lemma_split_on_some(s: Seq<char>, c: char)
    ensures
        split_on(s, c).len() > 0,
    decreases s.len(),
{
    if s.len() > 0 {
        lemma_split_on_some(s.drop_last(), c);
    }
}

/// The pieces of a text between one character and the next of its kind.
pub fn split_char(text: &str, c: char) -> (out: Vec<String>)
    ensures
        texts(out@) == split_on(text@, c),
        out@.len() > 0,
{
    let chars = chars_of(text);
    let mut out: Vec<String> = Vec::new();
    let mut piece = String::new();
    let mut at: usize = 0;
    assert(texts(out@).push(piece@) =~= split_on(text@.take(0), c));
    while at < chars.len()
        invariant
            at <= chars.len(),
            chars@ == text@,
            texts(out@).push(piece@) == split_on(text@.take(at as int), c),
        decreases chars.len() - at,
    {
        let ch = chars[at];
        let ghost front = split_on(text@.take(at as int), c);
        let ghost before = out@;
        assert(text@.take(at + 1).drop_last() =~= text@.take(at as int));
        assert(front.last() == piece@);
        assert(front.drop_last() =~= texts(before));
        if ch == c {
            let mut done = String::new();
            std::mem::swap(&mut piece, &mut done);
            out.push(done);
            assert(texts(out@) =~= texts(before).push(done@));
            assert(piece@ =~= Seq::empty());
        } else {
            piece.push(ch);
        }
        at += 1;
        assert(texts(out@).push(piece@) =~= split_on(text@.take(at as int), c));
    }
    assert(text@.take(at as int) =~= text@);
    let ghost before = out@;
    out.push(piece);
    assert(texts(out@) =~= texts(before).push(piece@));
    out
}

/// The last name in a path. A dot says nothing of where a path leads, and two
/// dots are no name.
pub open spec fn last_name(parts: Seq<Seq<char>>) -> Option<Seq<char>>
    decreases parts.len(),
{
    if parts.len() == 0 {
        None
    } else if parts.last().len() == 0 || parts.last() == "."@ {
        last_name(parts.drop_last())
    } else if parts.last() == ".."@ {
        None
    } else {
        Some(parts.last())
    }
}

/// The name of the file or directory that a path leads to.
pub open spec fn file_name_of(path: Seq<char>) -> Option<Seq<char>> {
    last_name(split_on(path, '/'))
}

/// The name of the file or directory that a path leads to.
pub fn file_name(path: &str) -> (name: Option<String>)
    ensures
        opt_text(name) == file_name_of(path@),
{
    let parts = split_char(path, '/');
    let mut end = parts.len();
    assert(texts(parts@).take(end as int) =~= texts(parts@));
    proof {
        reveal_strlit("");
    }
    while end > 0
        invariant
            end <= parts.len(),
            last_name(texts(parts@).take(end as int)) == file_name_of(path@),
            ""@.len() == 0,
        decreases end,
    {
        let part = parts[end - 1].as_str();
        let ghost here = texts(parts@).take(end as int);
        assert(here.last() == part@);
        assert(here.drop_last() =~= texts(parts@).take(end - 1));
        assert(part@.len() == 0 ==> part@ =~= ""@);
        if same_text(part, "") || same_text(part, ".") {
            end -= 1;
        } else if same_text(part, "..") {
            return None;
        } else {
            return Some(part.to_owned());
        }
    }
    None
}

/// Where the first `n` characters of a path end once the separators and the dots
/// that say nothing are left out at the end.
pub open spec fn path_end(path: Seq<char>, n: int) -> int
    decreases n,
{
    if n <= 0 {
        0
    } else if path[n - 1] == '/' {
        if n == 1 {
            1
        } else {
            path_end(path, n - 1)
        }
    } else if path[n - 1] == '.' && n > 1 && path[n - 2] == '/' {
        path_end(path, n - 1)
    } else {
        n
    }
}

/// Where the name that ends at `n` starts.
pub open spec fn name_start(path: Seq<char>, n: int) -> int
    decreases n,
{
    if n <= 0 || path[n - 1] == '/' {
        n
    } else {
        name_start(path, n - 1)
    }
}

/// The directory that a path lies in; nothing for the root and for an empty path.
pub open spec fn parent_of(path: Seq<char>) -> Option<Seq<char>> {
    let end = path_end(path, path.len() as int);
    if end == 0 || path[end - 1] == '/' {
        None
    } else {
        Some(path.take(path_end(path, name_start(path, end))))
    }
}

fn find_path_end(path: &Vec<char>, n: usize) -> (end: usize)
    requires
        n <= path.len(),
    ensures
        end == path_end(path@, n as int),
        end <= n,
    decreases n,
{
    if n == 0 {
        0
    } else if path[n - 1] == '/' {
        if n == 1 {
            1
        } else {
            find_path_end(path, n - 1)
        }
    } else if path[n - 1] == '.' && n > 1 && path[n - 2] == '/' {
        find_path_end(path, n - 1)
    } else {
        n
    }
}

fn find_name_start(path: &Vec<char>, n: usize) -> (start: usize)
    requires
        n <= path.len(),
    ensures
        start == name_start(path@, n as int),
        start <= n,
    decreases n,
{
    if n == 0 || path[n - 1] == '/' {
        n
    } else {
        find_name_start(path, n - 1)
    }
}

/// The directory that a path lies in; nothing for the root and for an empty path.
pub fn parent(path: &str) -> (out: Option<String>)
    ensures
        opt_text(out) == parent_of(path@),
{
    let chars = chars_of(path);
    let end = find_path_end(&chars, chars.len());
    if end == 0 || chars[end - 1] == '/' {
        return None;
    }
    let start = find_name_start(&chars, end);
    let kept = find_path_end(&chars, start);
    let out = slice_text(&chars, 0, kept);
    assert(out@ =~= path@.take(kept as int));
    Some(out)
}

/// Where the last dot of a name stands.
pub open spec fn last_dot(name: Seq<char>) -> Option<int>
    decreases name.len(),
{
    if name.len() == 0 {
        None
    } else if name.last() == '.' {
        Some(name.len() - 1)
    } else {
        last_dot(name.drop_last())
    }
}

/// A name without its ending. A dot at the front starts no ending.
pub open spec fn stem(name: Seq<char>) -> Seq<char> {
    match last_dot(name) {
        Some(at) => if at > 0 {
            name.take(at)
        } else {
            name
        },
        None => name,
    }
}

/// The name of the file that a path leads to, without its ending.
pub fn file_stem(path: &str) -> (out: Option<String>)
    ensures
        opt_text(out) == (match file_name_of(path@) {
            Some(name) => Some(stem(name)),
            None => None,
        }),
{
    let name = match file_name(path) {
        Some(name) => name,
        None => return None,
    };
    let chars = chars_of(name.as_str());
    let mut end = chars.len();
    assert(name@.take(end as int) =~= name@);
    while end > 0
        invariant
            end <= chars.len(),
            chars@ == name@,
            last_dot(name@.take(end as int)) == last_dot(name@),
            file_name_of(path@) == Some(name@),
        decreases end,
    {
        let ghost here = name@.take(end as int);
        assert(here.last() == name@[end - 1]);
        assert(here.drop_last() =~= name@.take(end - 1));
        if chars[end - 1] == '.' {
            if end == 1 {
                return Some(name);
            }
            let out = slice_text(&chars, 0, end - 1);
            assert(out@ =~= name@.take(end - 1));
            return Some(out);
        }
        end -= 1;
    }
    Some(name)
}

/// Whether a path without dots and doubled slashes lies in a directory of that
/// kind, or is it.
pub open spec fn is_within(path: Seq<char>, directory: Seq<char>) -> bool {
    path == directory || (if directory.len() > 0 && directory.last() == '/' {
        begins_with(path, directory)
    } else {
        begins_with(path, directory.push('/'))
    })
}

/// Whether a path lies in a directory, or is it.
pub fn lies_within(path: &str, directory: &str) -> (within: bool)
    ensures
        within == is_within(path@, directory@),
{
    if same_text(path, directory) {
        return true;
    }
    let chars = chars_of(directory);
    let mut prefix = directory.to_owned();
    if chars.len() == 0 || chars[chars.len() - 1] != '/' {
        prefix.push('/');
    }
    starts_with(path, prefix.as_str())
}

/// A path with another name in place of its last.
pub open spec fn renamed(path: Seq<char>, name: Seq<char>) -> Seq<char> {
    match (file_name_of(path), parent_of(path)) {
        (Some(_), Some(directory)) => joined(directory, name),
        _ => joined(path, name),
    }
}

/// A path with another name in place of its last.
pub fn with_file_name(path: &str, name: &str) -> (out: String)
    ensures
        out@ == renamed(path@, name@),
{
    match (file_name(path), parent(path)) {
        (Some(_), Some(directory)) => join_path(directory.as_str(), name),
        _ => join_path(path, name),
    }
}

/// Different paths below one base stand for different files.
pub proof fn lemma_joined_differ(base: Seq<char>, a: Seq<char>, b: Seq<char>)
    requires
        a != b,
        !is_absolute_path(a),
        !is_absolute_path(b),
    ensures
        joined(base, a) != joined(base, b),
{
    let front = if base.len() == 0 || base.last() == '/' {
        base
    } else {
        base.push('/')
    };
    assert(joined(base, a).skip(front.len() as int) =~= a);
    assert(joined(base, b).skip(front.len() as int) =~= b);
}

/// A path below two different directories, neither of whose names ends in a separator,
/// stands for two different files.
pub proof fn lemma_joined_bases_differ(a: Seq<char>, b: Seq<char>, path: Seq<char>)
    requires
        a != b,
        a.len() > 0 && a.last() != '/',
        b.len() > 0 && b.last() != '/',
        !is_absolute_path(path),
    ensures
        joined(a, path) != joined(b, path),
{
    let whole = joined(a, path);
    let other = joined(b, path);
    assert(whole.take(whole.len() - path.len() - 1) =~= a);
    assert(other.take(other.len() - path.len() - 1) =~= b);
}

/// A relative path is looked up from its base, with one slash between; an absolute one
/// stands for itself.
pub proof fn law_relative_paths_are_looked_up_from_their_base(base: Seq<char>, path: Seq<char>)
    ensures
        path.len() > 0 && path[0] == '/' ==> joined(base, path) == path,
        !(path.len() > 0 && path[0] == '/') && base.len() > 0 && base.last() != '/' ==> joined(
            base,
            path,
        ) == base + seq!['/'] + path,
        !(path.len() > 0 && path[0] == '/') && (base.len() == 0 || base.last() == '/') ==> joined(
            base,
            path,
        ) == base + path,
{
    assert(base.push('/') + path =~= base + seq!['/'] + path);
}

/// The pieces of a text, put together again with the character between them, make the text,
/// and none of them holds the character.
pub proof fn law_pieces_make_the_text(s: Seq<char>, c: char, i: int)
    ensures
        crate::text::join_with(split_on(s, c), seq![c]) == s,
        0 <= i < split_on(s, c).len() ==> !split_on(s, c)[i].contains(c),
    decreases s.len(),
{
    let parts = split_on(s, c);
    lemma_split_on_some(s, c);
    if s.len() == 0 {
        lemma_join_push(Seq::empty(), s, seq![c]);
        assert(s =~= Seq::empty());
        assert(parts =~= Seq::<Seq<char>>::empty().push(s));
    } else {
        let front = split_on(s.drop_last(), c);
        lemma_split_on_some(s.drop_last(), c);
        let whole = crate::text::join_with(front, seq![c]);
        law_pieces_make_the_text(s.drop_last(), c, i);
        law_pieces_make_the_text(s.drop_last(), c, front.len() - 1);
        if s.last() == c {
            lemma_join_push(front, Seq::empty(), seq![c]);
            assert(crate::text::join_with(parts, seq![c]) =~= s.drop_last().push(c));
            assert(s =~= s.drop_last().push(c));
            if i == front.len() {
                assert(parts[i] == Seq::<char>::empty());
            }
        } else {
            let before = front.drop_last();
            let last = front.last();
            assert(front =~= before.push(last));
            lemma_join_push(before, last, seq![c]);
            lemma_join_push(before, last.push(s.last()), seq![c]);
            assert(crate::text::join_with(parts, seq![c]) =~= s.drop_last().push(s.last()));
            assert(s =~= s.drop_last().push(s.last()));
            if i == parts.len() - 1 {
                assert forall|k: int| 0 <= k < parts[i].len() implies parts[i][k] != c by {
                    if k < last.len() {
                        assert(last.contains(last[k]));
                    }
                }
            } else if 0 <= i < parts.len() {
                assert(parts[i] == front[i]);
            }
        }
    }
}

proof fn lemma_join_push(list: Seq<Seq<char>>, last: Seq<char>, separator: Seq<char>)
    ensures
        crate::text::join_with(list.push(last), separator) == (if list.len() == 0 {
            last
        } else {
            crate::text::join_with(list, separator) + separator + last
        }),
{
    assert(list.push(last) =~= list + seq![last]);
    crate::text::law_joining_puts_the_separator_between(list, seq![last], separator);
    crate::text::law_joining_puts_the_separator_between(seq![last], list, separator);
    assert(list.len() == 0 ==> list + seq![last] =~= seq![last]);
}

/// The name of a file is what stands behind the last slash of its path.
pub proof fn law_file_name_stands_behind_the_last_slash(directory: Seq<char>, name: Seq<char>)
    requires
        name.len() > 0,
        !name.contains('/'),
        name != "."@,
        name != ".."@,
    ensures
        file_name_of(directory + seq!['/'] + name) == Some(name),
        file_name_of(name) == Some(name),
        file_name_of(directory + seq!['/']) == file_name_of(directory),
        file_name_of(directory + seq!['/'] + "."@) == file_name_of(directory),
        file_name_of(directory + seq!['/'] + ".."@) is None,
{
    let opened = directory.push('/');
    assert(directory + seq!['/'] =~= opened);
    assert(opened.drop_last() =~= directory);
    let front = split_on(directory, '/');
    lemma_split_behind(opened, name);
    reveal_strlit(".");
    reveal_strlit("..");
    assert(!"."@.contains('/')) by {
        assert("."@.len() == 1 && "."@[0] == '.');
    }
    assert(!".."@.contains('/')) by {
        assert(".."@.len() == 2 && ".."@[0] == '.' && ".."@[1] == '.');
    }
    lemma_split_behind(opened, "."@);
    lemma_split_behind(opened, ".."@);
    lemma_split_behind(Seq::empty(), name);
    let parts = split_on(opened, '/');
    assert(parts == front.push(Seq::empty()));
    assert(parts.drop_last() =~= front);
    assert(split_on(opened + name, '/') =~= front.push(name));
    assert(split_on(opened + "."@, '/') =~= front.push("."@));
    assert(front.push("."@).drop_last() =~= front);
    assert(split_on(opened + ".."@, '/') =~= front.push(".."@));
    assert(Seq::empty() + name =~= name);
    assert(split_on(Seq::empty(), '/') == seq![Seq::<char>::empty()]);
    assert(split_on(name, '/').last() == name);
}

proof fn lemma_split_behind(front: Seq<char>, name: Seq<char>)
    requires
        !name.contains('/'),
    ensures
        split_on(front + name, '/') == split_on(front, '/').drop_last().push(
            split_on(front, '/').last() + name,
        ),
    decreases name.len(),
{
    let whole = front + name;
    lemma_split_on_some(front, '/');
    if name.len() == 0 {
        assert(whole =~= front);
        let parts = split_on(front, '/');
        assert(parts.last() + name =~= parts.last());
        assert(parts =~= parts.drop_last().push(parts.last()));
    } else {
        let less = name.drop_last();
        assert forall|k: int| 0 <= k < less.len() implies less[k] != '/' by {
            assert(name.contains(name[k]));
        }
        lemma_split_behind(front, less);
        assert(name.contains(name.last()));
        assert(whole.drop_last() =~= front + less);
        assert(whole.last() == name.last());
        let parts = split_on(front, '/');
        let known = parts.drop_last().push(parts.last() + less);
        assert(known.drop_last() =~= parts.drop_last());
        assert((parts.last() + less).push(name.last()) =~= parts.last() + name);
    }
}

/// The parent of a file is the directory before the last slash of its path.
pub proof fn law_parent_stands_before_the_last_slash(directory: Seq<char>, name: Seq<char>)
    requires
        name.len() > 0,
        !name.contains('/'),
        name != "."@,
        directory.len() > 0,
        directory.last() != '/',
        !(directory.len() > 1 && directory.last() == '.' && directory[directory.len() - 2] == '/'),
    ensures
        parent_of(directory + seq!['/'] + name) == Some(directory),
        parent_of(seq!['/'] + name) == Some(seq!['/']),
        parent_of(name) == Some(Seq::<char>::empty()),
{
    reveal_strlit(".");
    let path = directory + seq!['/'] + name;
    let n = path.len() as int;
    let d = directory.len() as int;
    assert(name.contains(name.last()));
    if name.len() == 1 && name.last() == '.' {
        assert(name =~= "."@);
    }
    assert(path[n - 1] == name.last());
    if name.len() > 1 {
        assert(name.contains(name[name.len() - 2]));
        assert(path[n - 2] == name[name.len() - 2]);
    }
    assert(path_end(path, n) == n);
    assert forall|i: int| d < i < n implies #[trigger] path[i] != '/' by {
        assert(name.contains(name[i - d - 1]));
    }
    lemma_name_start(path, n, d + 1);
    assert(path[d] == '/' && path[d - 1] == directory.last());
    if d > 1 {
        assert(path[d - 2] == directory[d - 2]);
    }
    assert(path_end(path, d) == d);
    assert(path_end(path, d + 1) == d);
    assert(path.take(d) =~= directory);
    let rooted = seq!['/'] + name;
    let m = rooted.len() as int;
    assert(rooted[0] == '/' && rooted[m - 1] == name.last());
    if name.len() > 1 {
        assert(rooted[m - 2] == name[name.len() - 2]);
    }
    assert(path_end(rooted, m) == m);
    assert forall|i: int| 0 < i < m implies #[trigger] rooted[i] != '/' by {
        assert(name.contains(name[i - 1]));
    }
    lemma_name_start(rooted, m, 1);
    assert(path_end(rooted, 1) == 1);
    assert(rooted.take(1) =~= seq!['/']);
    let k = name.len() as int;
    assert(path_end(name, k) == k);
    assert forall|i: int| 0 <= i < k implies #[trigger] name[i] != '/' by {
        assert(name.contains(name[i]));
    }
    lemma_name_start(name, k, 0);
    assert(name.take(0) =~= Seq::empty());
}

proof fn lemma_name_start(path: Seq<char>, n: int, at: int)
    requires
        0 <= at <= n <= path.len(),
        at > 0 ==> path[at - 1] == '/',
        forall|i: int| at <= i < n ==> #[trigger] path[i] != '/',
    ensures
        name_start(path, n) == at,
    decreases n,
{
    if at < n {
        assert(path[n - 1] != '/');
        lemma_name_start(path, n - 1, at);
    }
}

/// The stem of a name is what stands before its last dot, unless that is the first
/// character.
pub proof fn law_stem_stands_before_the_last_dot(front: Seq<char>, extension: Seq<char>)
    requires
        front.len() > 0,
        !extension.contains('.'),
    ensures
        stem(front + seq!['.'] + extension) == front,
        stem(extension) == extension,
        stem(seq!['.'] + extension) == seq!['.'] + extension,
{
    lemma_last_dot(front, extension);
    lemma_last_dot(Seq::empty(), extension);
    lemma_no_dot(extension);
    let name = front + seq!['.'] + extension;
    assert(name.take(front.len() as int) =~= front);
    assert(Seq::empty() + seq!['.'] + extension =~= seq!['.'] + extension);
}

proof fn lemma_last_dot(front: Seq<char>, extension: Seq<char>)
    requires
        !extension.contains('.'),
    ensures
        last_dot(front + seq!['.'] + extension) == Some(front.len() as int),
    decreases extension.len(),
{
    let name = front + seq!['.'] + extension;
    if extension.len() > 0 {
        assert(extension.contains(extension.last()));
        let less = extension.drop_last();
        assert forall|k: int| 0 <= k < less.len() implies less[k] != '.' by {
            assert(extension.contains(extension[k]));
        }
        lemma_last_dot(front, less);
        assert(name.drop_last() =~= front + seq!['.'] + less);
        assert(name.last() == extension.last());
    } else {
        assert(name.last() == '.');
    }
}

proof fn lemma_no_dot(name: Seq<char>)
    requires
        !name.contains('.'),
    ensures
        last_dot(name) is None,
    decreases name.len(),
{
    if name.len() > 0 {
        assert(name.contains(name.last()));
        let less = name.drop_last();
        assert forall|k: int| 0 <= k < less.len() implies less[k] != '.' by {
            assert(name.contains(name[k]));
        }
        lemma_no_dot(less);
    }
}

/// A path lies within a directory exactly where it is the directory or goes on from it
/// behind a slash; a name that only starts in the same way does not.
pub proof fn law_paths_within_go_on_behind_a_slash(
    path: Seq<char>,
    directory: Seq<char>,
    rest: Seq<char>,
)
    requires
        directory.len() > 0,
        directory.last() != '/',
    ensures
        is_within(directory, directory),
        is_within(directory + seq!['/'] + rest, directory),
        is_within(path, directory) && path != directory ==> path.len() > directory.len()
            && path.take(directory.len() as int) == directory && path[directory.len() as int]
            == '/',
{
    let opened = directory.push('/');
    let inner = directory + seq!['/'] + rest;
    assert(inner.take(opened.len() as int) =~= opened);
    if is_within(path, directory) && path != directory {
        assert(path.take(opened.len() as int) == opened);
        assert(path.take(directory.len() as int) =~= opened.take(directory.len() as int));
        assert(opened.take(directory.len() as int) =~= directory);
        assert(path[directory.len() as int] == path.take(opened.len() as int)[directory.len() as int]);
    }
}

/// A file that is renamed stays in its directory.
pub proof fn law_renamed_file_stays_in_its_directory(
    directory: Seq<char>,
    name: Seq<char>,
    other: Seq<char>,
)
    requires
        name.len() > 0,
        !name.contains('/'),
        name != "."@,
        name != ".."@,
        directory.len() > 0,
        directory.last() != '/',
        !(directory.len() > 1 && directory.last() == '.' && directory[directory.len() - 2] == '/'),
        !is_absolute_path(other),
    ensures
        renamed(directory + seq!['/'] + name, other) == directory + seq!['/'] + other,
{
    law_file_name_stands_behind_the_last_slash(directory, name);
    law_parent_stands_before_the_last_slash(directory, name);
    law_relative_paths_are_looked_up_from_their_base(directory, other);
}

} // verus!
