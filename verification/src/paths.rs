//! Paths as text: file names, extensions, parents, and the mirroring of a
//! directory tree under another root. The separator is `/`. Separators and
//! `.` components that close a path name nothing and are skipped where the
//! file name, the extension or the parent of a path is asked for. A root is
//! taken off a path as text: the path has to start with the root as it is
//! written, which holds of every path that a walk below that root yields.

use vstd::prelude::*;

verus! {

/// The index of the last `c` in `s`, or -1 where `s` holds none.
pub open spec fn last_index_of(s: Seq<char>, c: char) -> int
    decreases s.len(),
{
    if s.len() == 0 {
        -1
    } else if s.last() == c {
        s.len() - 1
    } else {
        last_index_of(s.drop_last(), c)
    }
}

/// `path` without the separators and the `.` components that close it:
/// neither names anything, so `a/b/`, `a/b/.` and `a/b` name the same file.
pub open spec fn trim_trailing(path: Seq<char>) -> Seq<char>
    decreases path.len(),
{
    if path.len() > 0 && path.last() == '/' {
        trim_trailing(path.drop_last())
    } else if path.len() >= 2 && path.last() == '.' && path[path.len() - 2] == '/' {
        trim_trailing(path.take(path.len() - 2))
    } else {
        path
    }
}

/// The last component of `path`: what follows the last separator once the
/// end of `path` is trimmed.
pub open spec fn last_component(path: Seq<char>) -> Seq<char> {
    let core = trim_trailing(path);
    core.skip(last_index_of(core, '/') + 1)
}

/// A component that names no file: nothing, the directory itself, or the
/// directory above.
pub open spec fn names_no_file(component: Seq<char>) -> bool {
    component.len() == 0 || component == seq!['.'] || component == seq!['.', '.']
}

/// The name of the file that `path` ends in, if it ends in one.
pub open spec fn file_name(path: Seq<char>) -> Option<Seq<char>> {
    let name = last_component(path);
    if names_no_file(name) {
        None
    } else {
        Some(name)
    }
}

/// What follows the last dot of the file name, unless that dot is missing or
/// opens the file name.
pub open spec fn extension_of(path: Seq<char>) -> Option<Seq<char>> {
    match file_name(path) {
        Some(name) => {
            let dot = last_index_of(name, '.');
            if dot > 0 {
                Some(name.skip(dot + 1))
            } else {
                None
            }
        },
        None => None,
    }
}

/// `path` without its last component: the directory that has to exist
/// before `path` can be written. It is empty for a single relative
/// component, the root for a component right under it, and missing where
/// `path` has no component at all.
pub open spec fn parent_of(path: Seq<char>) -> Option<Seq<char>> {
    let core = trim_trailing(path);
    if core.len() == 0 {
        None
    } else {
        let slash = last_index_of(core, '/');
        let before = trim_trailing(core.take(slash + 1));
        if slash >= 0 && before.len() == 0 {
            Some(seq!['/'])
        } else {
            Some(before)
        }
    }
}

/// `s` without the separators that open it.
pub open spec fn skip_separators(s: Seq<char>) -> Seq<char>
    decreases s.len(),
{
    if s.len() > 0 && s[0] == '/' {
        skip_separators(s.drop_first())
    } else {
        s
    }
}

/// `path` lies under `root`: it starts with `root`, and `root` ends where a
/// component of `path` ends.
pub open spec fn is_under(root: Seq<char>, path: Seq<char>) -> bool {
    &&& root.is_prefix_of(path)
    &&& (root.len() == 0 || root.last() == '/' || path.len() == root.len() || path[root.len() as int]
        == '/')
}

/// The part of `path` below `root`, without leading separators.
pub open spec fn relative_to(root: Seq<char>, path: Seq<char>) -> Option<Seq<char>> {
    if is_under(root, path) {
        Some(skip_separators(path.skip(root.len() as int)))
    } else {
        None
    }
}

/// `relative` placed below `base`, with one separator between them where
/// `base` does not bring its own. A path that starts at the root stands for
/// itself.
pub open spec fn joined(base: Seq<char>, relative: Seq<char>) -> Seq<char> {
    if relative.len() > 0 && relative[0] == '/' {
        relative
    } else if base.len() == 0 || base.last() == '/' {
        base + relative
    } else {
        base + seq!['/'] + relative
    }
}

/// Where the copy of `path` goes: `input_root` is replaced by `output_root`
/// and the rest stays as it is.
pub open spec fn mirrored_path(
    input_root: Seq<char>,
    output_root: Seq<char>,
    path: Seq<char>,
) -> Option<Seq<char>> {
    match relative_to(input_root, path) {
        Some(relative) => Some(joined(output_root, relative)),
        None => None,
    }
}

/// `last_index_of` finds an occurrence, and nothing occurs after it.
pub proof fn lemma_last_index_of(s: Seq<char>, c: char)
    ensures
        -1 <= last_index_of(s, c) < s.len(),
        last_index_of(s, c) >= 0 ==> s[last_index_of(s, c)] == c,
        forall|k: int| last_index_of(s, c) < k < s.len() ==> s[k] != c,
    decreases s.len(),
{
    if s.len() > 0 && s.last() != c {
        let front = s.drop_last();
        lemma_last_index_of(front, c);
        assert forall|k: int| last_index_of(s, c) < k < s.len() implies s[k] != c by {
            if k < front.len() {
                assert(front[k] == s[k]);
            }
        }
    }
}

/// An occurrence after which nothing occurs is the one `last_index_of` finds.
pub proof fn lemma_last_index_of_is(s: Seq<char>, c: char, i: int)
    requires
        -1 <= i < s.len(),
        i >= 0 ==> s[i] == c,
        forall|k: int| i < k < s.len() ==> s[k] != c,
    ensures
        last_index_of(s, c) == i,
{
    lemma_last_index_of(s, c);
}

/// A tree is mirrored file by file: what lies at `relative` below the input
/// root goes to `relative` below the output root.
pub proof fn lemma_mirror_keeps_relative_path(
    input_root: Seq<char>,
    output_root: Seq<char>,
    relative: Seq<char>,
)
    requires
        relative.len() == 0 || relative[0] != '/',
    ensures
        mirrored_path(input_root, output_root, joined(input_root, relative)) == Some(
            joined(output_root, relative),
        ),
{
    let path = joined(input_root, relative);
    let rest = path.skip(input_root.len() as int);
    assert(input_root =~= path.subrange(0, input_root.len() as int));
    assert(is_under(input_root, path));
    if input_root.len() == 0 || input_root.last() == '/' {
        assert(rest =~= relative);
    } else {
        assert(rest =~= seq!['/'] + relative);
        assert(rest.drop_first() =~= relative);
        assert(skip_separators(rest) == skip_separators(relative));
    }
    assert(skip_separators(relative) == relative);
}

/// Where the last `c` of a tail of `s` lies, told from where it lies in `s`.
pub proof fn lemma_last_index_of_tail(s: Seq<char>, from: int, c: char)
    requires
        0 <= from <= s.len(),
    ensures
        last_index_of(s.skip(from), c) == if last_index_of(s, c) >= from {
            last_index_of(s, c) - from
        } else {
            -1
        },
{
    lemma_last_index_of(s, c);
    let i = last_index_of(s, c);
    if i >= from {
        lemma_last_index_of_is(s.skip(from), c, i - from);
    } else {
        lemma_last_index_of_is(s.skip(from), c, -1);
    }
}

/// The end of a path is trimmed in the same way whatever stands before it,
/// as long as something other than `.` is left of the end.
pub proof fn lemma_trim_after_prefix(prefix: Seq<char>, rest: Seq<char>)
    requires
        trim_trailing(rest).len() > 0,
        trim_trailing(rest) != seq!['.'],
    ensures
        trim_trailing(prefix + rest) == prefix + trim_trailing(rest),
    decreases rest.len(),
{
    let path = prefix + rest;
    if rest.len() > 0 && rest.last() == '/' {
        assert(path.drop_last() =~= prefix + rest.drop_last());
        lemma_trim_after_prefix(prefix, rest.drop_last());
    } else if rest.len() >= 2 && rest.last() == '.' && rest[rest.len() - 2] == '/' {
        assert(path.take(path.len() - 2) =~= prefix + rest.take(rest.len() - 2));
        lemma_trim_after_prefix(prefix, rest.take(rest.len() - 2));
    } else {
        if rest.len() == 1 {
            assert(rest =~= seq![rest[0]]);
        }
    }
}

/// A file keeps its name, and so its extension, whatever directory its path
/// is written after.
pub proof fn lemma_file_name_after_directory(directory: Seq<char>, rest: Seq<char>)
    requires
        directory.len() == 0 || directory.last() == '/',
        file_name(rest) is Some,
    ensures
        file_name(directory + rest) == file_name(rest),
        extension_of(directory + rest) == extension_of(rest),
{
    let core = trim_trailing(rest);
    let d = directory.len() as int;
    if core == seq!['.'] {
        assert(last_index_of(core, '/') == -1) by {
            lemma_last_index_of(core, '/');
        }
        assert(core.skip(0) =~= core);
    }
    lemma_trim_after_prefix(directory, rest);
    let whole = directory + core;
    assert(whole.skip(d) =~= core);
    lemma_last_index_of(core, '/');
    lemma_last_index_of(whole, '/');
    lemma_last_index_of_tail(whole, d, '/');
    let i = last_index_of(core, '/');
    if i >= 0 {
        assert(whole.skip(i + d + 1) =~= core.skip(i + 1));
    } else {
        if d > 0 {
            assert(whole[d - 1] == '/');
            lemma_last_index_of_is(whole, '/', d - 1);
        }
        assert(whole.skip(d) =~= core.skip(0));
    }
}

/// A file keeps its name, and so its extension, when it is placed below
/// another directory.
pub proof fn lemma_join_keeps_file_name(base: Seq<char>, relative: Seq<char>)
    requires
        file_name(relative) is Some,
    ensures
        file_name(joined(base, relative)) == file_name(relative),
        extension_of(joined(base, relative)) == extension_of(relative),
{
    if relative.len() > 0 && relative[0] == '/' {
    } else if base.len() == 0 || base.last() == '/' {
        lemma_file_name_after_directory(base, relative);
    } else {
        assert(base + seq!['/'] + relative =~= (base + seq!['/']) + relative);
        lemma_file_name_after_directory(base + seq!['/'], relative);
    }
}

/// A file keeps its name, and so its extension, when the root it lies under
/// is taken off its path.
pub proof fn lemma_relative_keeps_file_name(root: Seq<char>, path: Seq<char>)
    requires
        is_under(root, path),
        file_name(relative_to(root, path)->0) is Some,
    ensures
        file_name(relative_to(root, path)->0) == file_name(path),
        extension_of(relative_to(root, path)->0) == extension_of(path),
{
    let relative = relative_to(root, path)->0;
    let m = root.len() as int;
    lemma_skip_separators(path.skip(m));
    let from = path.len() - relative.len();
    assert(path.skip(m).skip(from - m) =~= path.skip(from));
    assert(path.skip(from) == relative);
    assert(relative.len() > 0) by {
        if relative.len() == 0 {
            assert(trim_trailing(relative) == relative);
            assert(relative.skip(0) =~= relative);
        }
    }
    if from > 0 {
        if from > m {
            assert(path.skip(m)[from - m - 1] == '/');
        } else {
            assert(root.last() == '/' || path[m] == '/');
            assert(root =~= path.subrange(0, m));
            if root.last() == '/' {
                assert(path[m - 1] == root[m - 1]);
            } else {
                assert(relative[0] == path[m]);
                assert(relative[0] != '/');
            }
        }
        assert(path[from - 1] == '/');
    }
    let directory = path.take(from);
    assert(directory + relative =~= path);
    lemma_file_name_after_directory(directory, relative);
}

/// A file that lies below the input root keeps its name, and so its
/// extension, in the mirrored tree.
pub proof fn lemma_mirror_keeps_file_name(
    input_root: Seq<char>,
    output_root: Seq<char>,
    path: Seq<char>,
)
    requires
        is_under(input_root, path),
        file_name(relative_to(input_root, path)->0) is Some,
    ensures
        mirrored_path(input_root, output_root, path) is Some,
        file_name(mirrored_path(input_root, output_root, path)->0) == file_name(path),
        extension_of(mirrored_path(input_root, output_root, path)->0) == extension_of(path),
{
    lemma_relative_keeps_file_name(input_root, path);
    lemma_join_keeps_file_name(output_root, relative_to(input_root, path)->0);
}

/// `skip_separators` drops separators from the front and nothing else, and
/// stops at the first character that is none.
pub proof fn lemma_skip_separators(s: Seq<char>)
    ensures
        skip_separators(s).len() <= s.len(),
        skip_separators(s) == s.skip(s.len() - skip_separators(s).len()),
        forall|k: int| 0 <= k < s.len() - skip_separators(s).len() ==> s[k] == '/',
        skip_separators(s).len() > 0 ==> skip_separators(s)[0] != '/',
    decreases s.len(),
{
    if s.len() > 0 && s[0] == '/' {
        let rest = s.drop_first();
        lemma_skip_separators(rest);
        let d = rest.len() - skip_separators(rest).len();
        assert(rest.skip(d) =~= s.skip(d + 1));
        assert forall|k: int| 0 <= k < s.len() - skip_separators(s).len() implies s[k] == '/' by {
            if k > 0 {
                assert(rest[k - 1] == s[k]);
            }
        }
    } else {
        assert(s.skip(0) =~= s);
    }
}

/// The characters of `s`, one by one.
fn chars_of(s: &str) -> (chars: Vec<char>)
    ensures
        chars@ == s@,
{
    let mut chars: Vec<char> = Vec::new();
    for c in it: s.chars()
        invariant
            chars@ == it.seq().take(it.index() as int),
    {
        chars.push(c);
    }
    chars
}

/// The index of the last `c` at or after `from` and before `end`.
fn find_last(chars: &Vec<char>, from: usize, end: usize, c: char) -> (found: Option<usize>)
    requires
        from <= end <= chars.len(),
    ensures
        match found {
            Some(i) => from <= i < end && last_index_of(
                chars@.subrange(from as int, end as int),
                c,
            ) == i - from,
            None => last_index_of(chars@.subrange(from as int, end as int), c) == -1,
        },
{
    let mut i = end;
    while i > from
        invariant
            from <= i <= end <= chars.len(),
            forall|k: int| i <= k < end ==> chars[k] != c,
        decreases i,
    {
        i -= 1;
        if chars[i] == c {
            proof {
                lemma_last_index_of_is(chars@.subrange(from as int, end as int), c, i - from);
            }
            return Some(i);
        }
    }
    proof {
        lemma_last_index_of_is(chars@.subrange(from as int, end as int), c, -1);
    }
    None
}

/// The length of what is left of the first `len` characters once their end
/// is trimmed.
fn trimmed_length(chars: &Vec<char>, len: usize) -> (end: usize)
    requires
        len <= chars.len(),
    ensures
        end <= len,
        trim_trailing(chars@.take(len as int)) == chars@.take(end as int),
{
    let mut end = len;
    loop
        invariant
            end <= len <= chars.len(),
            trim_trailing(chars@.take(len as int)) == trim_trailing(chars@.take(end as int)),
        ensures
            end <= len,
            trim_trailing(chars@.take(len as int)) == chars@.take(end as int),
        decreases end,
    {
        let ghost front = chars@.take(end as int);
        if end > 0 && chars[end - 1] == '/' {
            assert(front.drop_last() =~= chars@.take(end - 1));
            end -= 1;
        } else if end >= 2 && chars[end - 1] == '.' && chars[end - 2] == '/' {
            assert(front.take(front.len() - 2) =~= chars@.take(end - 2));
            end -= 2;
        } else {
            break ;
        }
    }
    end
}

/// Where the file name of a path starts and ends, if the path has one.
fn file_name_range(chars: &Vec<char>) -> (range: Option<(usize, usize)>)
    ensures
        match range {
            Some((start, end)) => start < end <= chars.len() && file_name(chars@) == Some(
                chars@.subrange(start as int, end as int),
            ),
            None => file_name(chars@) is None,
        },
{
    assert(chars@.take(chars.len() as int) =~= chars@);
    let end = trimmed_length(chars, chars.len());
    assert(chars@.take(end as int) =~= chars@.subrange(0, end as int));
    let start = match find_last(chars, 0, end, '/') {
        Some(slash) => slash + 1,
        None => 0,
    };
    let ghost name = chars@.subrange(start as int, end as int);
    assert(last_component(chars@) =~= name);
    if start == end {
        None
    } else if end - start == 1 && chars[start] == '.' {
        assert(name =~= seq!['.']);
        None
    } else if end - start == 2 && chars[start] == '.' && chars[start + 1] == '.' {
        assert(name =~= seq!['.', '.']);
        None
    } else {
        assert(name != seq!['.']) by {
            if name == seq!['.'] {
                assert(name.len() == 1 && name[0] == '.');
            }
        }
        assert(name != seq!['.', '.']) by {
            if name == seq!['.', '.'] {
                assert(name.len() == 2 && name[0] == '.' && name[1] == '.');
            }
        }
        Some((start, end))
    }
}

/// The name of the file that `path` ends in, if it ends in one.
pub fn path_file_name(path: &str) -> (name: Option<String>)
    ensures
        match name {
            Some(n) => file_name(path@) == Some(n@),
            None => file_name(path@) is None,
        },
{
    let chars = chars_of(path);
    match file_name_range(&chars) {
        Some((start, end)) => Some(path.substring_char(start, end).to_owned()),
        None => None,
    }
}

/// The extension of the file that `path` names, without its dot.
pub fn path_extension(path: &str) -> (extension: Option<String>)
    ensures
        match extension {
            Some(e) => extension_of(path@) == Some(e@),
            None => extension_of(path@) is None,
        },
{
    let chars = chars_of(path);
    match file_name_range(&chars) {
        Some((start, end)) => {
            let ghost name = chars@.subrange(start as int, end as int);
            match find_last(&chars, start, end, '.') {
                Some(dot) => {
                    if dot > start {
                        assert(name.skip(dot - start + 1) =~= path@.subrange(
                            dot + 1,
                            end as int,
                        ));
                        Some(path.substring_char(dot + 1, end).to_owned())
                    } else {
                        None
                    }
                },
                None => None,
            }
        },
        None => None,
    }
}

/// The directory that has to exist before `path` can be written.
pub fn parent_directory(path: &str) -> (parent: Option<String>)
    ensures
        match parent {
            Some(p) => parent_of(path@) == Some(p@),
            None => parent_of(path@) is None,
        },
{
    let chars = chars_of(path);
    assert(chars@.take(chars.len() as int) =~= chars@);
    let end = trimmed_length(&chars, chars.len());
    if end == 0 {
        return None;
    }
    let ghost core = chars@.take(end as int);
    assert(core =~= chars@.subrange(0, end as int));
    let found = find_last(&chars, 0, end, '/');
    let cut = match found {
        Some(slash) => slash + 1,
        None => 0,
    };
    assert(core.take(cut as int) =~= chars@.take(cut as int));
    let before = trimmed_length(&chars, cut);
    if found.is_some() && before == 0 {
        proof {
            reveal_strlit("/");
        }
        assert("/"@ =~= seq!['/']);
        Some("/".to_owned())
    } else {
        assert(chars@.take(before as int) =~= path@.subrange(0, before as int));
        Some(path.substring_char(0, before).to_owned())
    }
}

/// The index of the first character at or after `from` that is no separator.
fn skip_slashes(chars: &Vec<char>, from: usize) -> (to: usize)
    requires
        from <= chars.len(),
    ensures
        from <= to <= chars.len(),
        skip_separators(chars@.skip(from as int)) == chars@.skip(to as int),
{
    let mut to = from;
    while to < chars.len() && chars[to] == '/'
        invariant
            from <= to <= chars.len(),
            skip_separators(chars@.skip(from as int)) == skip_separators(chars@.skip(to as int)),
        decreases chars.len() - to,
    {
        assert(chars@.skip(to as int).drop_first() =~= chars@.skip(to + 1));
        to += 1;
    }
    to
}

/// Tells whether `path` starts with `root`.
fn starts_with(path: &Vec<char>, root: &Vec<char>) -> (yes: bool)
    ensures
        yes == root@.is_prefix_of(path@),
{
    if root.len() > path.len() {
        return false;
    }
    let mut i: usize = 0;
    while i < root.len()
        invariant
            i <= root.len() <= path.len(),
            forall|k: int| 0 <= k < i ==> root[k] == path[k],
        decreases root.len() - i,
    {
        if root[i] != path[i] {
            return false;
        }
        i += 1;
    }
    assert(root@ =~= path@.subrange(0, root.len() as int));
    true
}

/// The part of `path` below `root`, or `None` where `path` does not lie
/// under `root`.
pub fn strip_root(root: &str, path: &str) -> (relative: Option<String>)
    ensures
        match relative {
            Some(r) => relative_to(root@, path@) == Some(r@),
            None => relative_to(root@, path@) is None,
        },
{
    let root_chars = chars_of(root);
    let path_chars = chars_of(path);
    let m = root_chars.len();
    let n = path_chars.len();
    if !starts_with(&path_chars, &root_chars) {
        return None;
    }
    if m == 0 || root_chars[m - 1] == '/' || n == m || path_chars[m] == '/' {
        let from = skip_slashes(&path_chars, m);
        assert(path@.skip(from as int) =~= path@.subrange(from as int, n as int));
        Some(path.substring_char(from, n).to_owned())
    } else {
        None
    }
}

/// `relative` placed below `base`.
pub fn join_path(base: &str, relative: &str) -> (path: String)
    ensures
        path@ == joined(base@, relative@),
{
    if relative.unicode_len() > 0 && relative.get_char(0) == '/' {
        return relative.to_owned();
    }
    let base_chars = chars_of(base);
    let m = base_chars.len();
    let mut path = base.to_owned();
    if !(m == 0 || base_chars[m - 1] == '/') {
        proof {
            reveal_strlit("/");
        }
        assert("/"@ =~= seq!['/']);
        path.append("/");
    }
    path.append(relative);
    path
}

/// Where the copy of `path` goes when the tree under `input_root` is mirrored
/// under `output_root`; `None` where `path` does not lie under `input_root`.
pub fn mirror_path(input_root: &str, output_root: &str, path: &str) -> (mirrored: Option<String>)
    ensures
        match mirrored {
            Some(m) => mirrored_path(input_root@, output_root@, path@) == Some(m@),
            None => mirrored_path(input_root@, output_root@, path@) is None,
        },
{
    match strip_root(input_root, path) {
        Some(relative) => Some(join_path(output_root, relative.as_str())),
        None => None,
    }
}

} // verus!
