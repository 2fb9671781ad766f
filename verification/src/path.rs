//! Paths as text, with `/` as the only separator.
//!
//! Every function here is lexical: it looks at the characters of a path and
//! never at the file system. A path is read as a sequence of components, the
//! pieces between separators. Empty pieces and single dots are skipped, except
//! that one leading dot stands for the current directory.

use vstd::prelude::*;

verus! {

/// A path is absolute when it starts at the root.
pub open spec fn is_absolute(path: Seq<char>) -> bool {
    path.len() > 0 && path[0] == '/'
}

/// `base` made ready for a path to follow: a separator is put behind it
/// unless it is empty or ends in one.
pub open spec fn with_separator(base: Seq<char>) -> Seq<char> {
    if base.len() > 0 && base.last() != '/' {
        base + seq!['/']
    } else {
        base
    }
}

/// `path` adjoined to `base`: an absolute `path` replaces `base`, and a
/// separator is put between the two unless `base` is empty or ends in one.
pub open spec fn joined(base: Seq<char>, path: Seq<char>) -> Seq<char> {
    if is_absolute(path) {
        path
    } else {
        with_separator(base) + path
    }
}

/// How many leading characters stand before the first component that can be
/// dropped: one for a root separator or for a leading current-directory dot,
/// none otherwise.
pub open spec fn body_start(path: Seq<char>) -> int {
    if path.len() > 0 && (path[0] == '/' || (path[0] == '.' && (path.len() == 1 || path[1]
        == '/'))) {
        1
    } else {
        0
    }
}

/// Where the piece that ends at `end` starts: the least position from `floor`
/// on with no separator between it and `end`.
pub open spec fn segment_start(path: Seq<char>, floor: int, end: int) -> int
    decreases end - floor,
{
    if end <= floor || path[end - 1] == '/' {
        end
    } else {
        segment_start(path, floor, end - 1)
    }
}

/// Whether the piece `path[start..end]` is skipped: it is empty or a single dot.
pub open spec fn is_skipped(path: Seq<char>, start: int, end: int) -> bool {
    end == start || (end == start + 1 && path[start] == '.')
}

/// The end of `path[..end]` once its trailing skipped pieces are dropped, each
/// with the separator before it, never going below `floor`.
pub open spec fn trimmed_end(path: Seq<char>, floor: int, end: int) -> int
    decreases end - floor,
{
    if end <= floor {
        end
    } else {
        let start = segment_start(path, floor, end);
        if !is_skipped(path, start, end) {
            end
        } else if start <= floor {
            floor
        } else {
            trimmed_end(path, floor, start - 1)
        }
    }
}

/// Where the last component of `path` ends; `body_start(path)` if it has none.
pub open spec fn name_end(path: Seq<char>) -> int {
    trimmed_end(path, body_start(path), path.len() as int)
}

/// Where the last component of `path` starts.
pub open spec fn name_start(path: Seq<char>) -> int {
    segment_start(path, body_start(path), name_end(path))
}

/// The last component of `path` that is neither the root nor a leading
/// current-directory dot.
pub open spec fn last_component(path: Seq<char>) -> Option<Seq<char>> {
    if name_end(path) <= body_start(path) {
        None
    } else {
        Some(path.subrange(name_start(path), name_end(path)))
    }
}

/// The text that names the parent directory.
pub open spec fn dot_dot() -> Seq<char> {
    seq!['.', '.']
}

/// The final component of `path`, unless the path ends in the root, in the
/// current directory or in `..`.
pub open spec fn file_name_of(path: Seq<char>) -> Option<Seq<char>> {
    match last_component(path) {
        Some(name) => if name == dot_dot() {
            None
        } else {
            Some(name)
        },
        None => None,
    }
}

/// The position just behind the last dot of `name`; 0 if it has no dot.
pub open spec fn after_last_dot(name: Seq<char>) -> int
    decreases name.len(),
{
    if name.len() == 0 {
        0
    } else if name.last() == '.' {
        name.len() as int
    } else {
        after_last_dot(name.drop_last())
    }
}

/// The extension of a file name: what follows its last dot, unless the name
/// has no dot or only the one it starts with.
pub open spec fn extension_of_name(name: Seq<char>) -> Option<Seq<char>> {
    if after_last_dot(name) <= 1 {
        None
    } else {
        Some(name.skip(after_last_dot(name)))
    }
}

/// The extension of the file name of `path`.
pub open spec fn extension_of(path: Seq<char>) -> Option<Seq<char>> {
    match file_name_of(path) {
        Some(name) => extension_of_name(name),
        None => None,
    }
}

/// `path` without its last component: `None` for the root and for the empty
/// path, the empty path for a lone current-directory dot.
pub open spec fn parent_of(path: Seq<char>) -> Option<Seq<char>> {
    let floor = body_start(path);
    if name_end(path) <= floor {
        if floor == 1 && path[0] == '.' {
            Some(Seq::<char>::empty())
        } else {
            None
        }
    } else {
        let start = name_start(path);
        let cut = if start <= floor {
            floor
        } else {
            start - 1
        };
        Some(path.take(trimmed_end(path, floor, cut)))
    }
}

/// A text that can be the file name of a path: not empty, free of
/// separators, and neither `.` nor `..`.
pub open spec fn is_file_name(name: Seq<char>) -> bool {
    &&& name.len() > 0
    &&& forall|i: int| 0 <= i < name.len() ==> name[i] != '/'
    &&& name != seq!['.']
    &&& name != dot_dot()
}

/// A piece holds no separator, and starts at the floor or behind one.
pub proof fn lemma_segment_start(path: Seq<char>, floor: int, end: int)
    requires
        0 <= floor <= end <= path.len(),
    ensures
        floor <= segment_start(path, floor, end) <= end,
        forall|k: int| segment_start(path, floor, end) <= k < end ==> path[k] != '/',
        segment_start(path, floor, end) > floor ==> path[segment_start(path, floor, end) - 1]
            == '/',
    decreases end - floor,
{
    if end > floor && path[end - 1] != '/' {
        lemma_segment_start(path, floor, end - 1);
    }
}

/// Trimming stops at the floor or behind a piece that is not skipped.
pub proof fn lemma_trimmed_end(path: Seq<char>, floor: int, end: int)
    requires
        0 <= floor <= end <= path.len(),
    ensures
        floor <= trimmed_end(path, floor, end) <= end,
        trimmed_end(path, floor, end) > floor ==> !is_skipped(
            path,
            segment_start(path, floor, trimmed_end(path, floor, end)),
            trimmed_end(path, floor, end),
        ),
    decreases end - floor,
{
    if end > floor {
        let start = segment_start(path, floor, end);
        lemma_segment_start(path, floor, end);
        if is_skipped(path, start, end) && start > floor {
            lemma_trimmed_end(path, floor, start - 1);
        }
    }
}

/// What `file_name_of` gives can be a file name.
pub proof fn lemma_file_name_is_file_name(path: Seq<char>)
    ensures
        file_name_of(path) matches Some(name) ==> is_file_name(name),
{
    let floor = body_start(path);
    let end = name_end(path);
    lemma_trimmed_end(path, floor, path.len() as int);
    if end > floor {
        let start = name_start(path);
        lemma_segment_start(path, floor, end);
        let name = path.subrange(start, end);
        assert forall|i: int| 0 <= i < name.len() implies name[i] != '/' by {
            assert(name[i] == path[start + i]);
        }
        if name == seq!['.'] {
            assert(name.len() == 1);
            assert(name[0] == path[start]);
        }
    }
}

/// A relative path adjoined to an absolute directory is absolute and lies,
/// as a text, under that directory.
pub proof fn lemma_joined_is_rooted(base: Seq<char>, path: Seq<char>)
    requires
        is_absolute(base),
        !is_absolute(path),
    ensures
        is_absolute(joined(base, path)),
        base.is_prefix_of(joined(base, path)),
{
    let whole = joined(base, path);
    assert(whole[0] == base[0]);
    assert(whole.subrange(0, base.len() as int) =~= base);
}

/// Two relative paths adjoined to one directory give one path only if they
/// are the same.
pub proof fn lemma_joined_tells_apart(base: Seq<char>, a: Seq<char>, b: Seq<char>)
    requires
        !is_absolute(a),
        !is_absolute(b),
        joined(base, a) == joined(base, b),
    ensures
        a == b,
{
    let head = with_separator(base);
    assert(joined(base, a) =~= head + a);
    assert(joined(base, b) =~= head + b);
    assert((head + a).skip(head.len() as int) =~= a);
    assert((head + b).skip(head.len() as int) =~= b);
}

/// A piece that holds no separator, and starts at the floor or behind a
/// separator, is the piece that ends where it ends.
proof fn lemma_segment_found(path: Seq<char>, floor: int, start: int, end: int)
    requires
        0 <= floor <= start <= end <= path.len(),
        forall|k: int| start <= k < end ==> path[k] != '/',
        start == floor || path[start - 1] == '/',
    ensures
        segment_start(path, floor, end) == start,
    decreases end - start,
{
    if end > start {
        lemma_segment_found(path, floor, start, end - 1);
    }
}

/// A file name adjoined to a directory is the file name of the path that
/// results.
pub proof fn lemma_joined_keeps_file_name(base: Seq<char>, name: Seq<char>)
    requires
        is_file_name(name),
    ensures
        file_name_of(joined(base, name)) == Some(name),
{
    let whole = joined(base, name);
    let head = with_separator(base);
    assert(whole =~= head + name);
    let h = head.len() as int;
    let end = whole.len() as int;
    let floor = body_start(whole);
    assert(floor <= h) by {
        if h == 0 && name.len() == 1 && name[0] == '.' {
            assert(name =~= seq!['.']);
        }
    }
    assert forall|k: int| h <= k < end implies whole[k] != '/' by {
        assert(whole[k] == name[k - h]);
    }
    assert(h == floor || whole[h - 1] == '/') by {
        if h > 0 {
            assert(whole[h - 1] == head[h - 1]);
        }
    }
    lemma_segment_found(whole, floor, h, end);
    assert(!is_skipped(whole, h, end)) by {
        if end == h + 1 && whole[h] == '.' {
            assert(name =~= seq!['.']);
        }
    }
    assert(whole.subrange(h, end) =~= name);
}

/// What lies behind `k` has no say in where a piece that ends before `k`
/// starts, nor in where trimming from there stops.
proof fn lemma_prefix_decides(path: Seq<char>, floor: int, end: int, k: int)
    requires
        0 <= floor <= end <= k <= path.len(),
    ensures
        segment_start(path.take(k), floor, end) == segment_start(path, floor, end),
        trimmed_end(path.take(k), floor, end) == trimmed_end(path, floor, end),
    decreases end - floor,
{
    if end > floor {
        lemma_segment_start(path, floor, end);
        lemma_prefix_decides(path, floor, end - 1, k);
        let start = segment_start(path, floor, end);
        if is_skipped(path, start, end) && start > floor {
            lemma_prefix_decides(path, floor, start - 1, k);
        }
    }
}

/// What `parent_of` gives is trimmed already: nothing skipped is left at its
/// end, and it starts as the path does.
proof fn lemma_parent_is_trimmed(path: Seq<char>)
    ensures
        parent_of(path) matches Some(parent) ==> trimmed_end(
            parent,
            body_start(parent),
            parent.len() as int,
        ) == parent.len(),
{
    let floor = body_start(path);
    lemma_trimmed_end(path, floor, path.len() as int);
    if name_end(path) > floor {
        let start = name_start(path);
        lemma_segment_start(path, floor, name_end(path));
        let cut = if start <= floor {
            floor
        } else {
            start - 1
        };
        let kept = trimmed_end(path, floor, cut);
        lemma_trimmed_end(path, floor, cut);
        let parent = path.take(kept);
        if kept > floor {
            lemma_segment_start(path, floor, kept);
            assert(body_start(parent) == floor) by {
                if kept == 1 {
                    assert(segment_start(path, floor, kept) == 0);
                }
            }
            lemma_prefix_decides(path, floor, kept, kept);
        }
    }
}

/// A file name adjoined to the parent of a path is a sibling of that path:
/// it has the same parent.
pub proof fn lemma_joined_to_parent_is_sibling(path: Seq<char>, name: Seq<char>)
    requires
        is_file_name(name),
    ensures
        parent_of(path) matches Some(parent) ==> parent_of(joined(parent, name)) == Some(parent),
{
    if parent_of(path) is Some {
        let parent = parent_of(path)->0;
        lemma_parent_is_trimmed(path);
        let whole = joined(parent, name);
        let floor = body_start(whole);
        let b = parent.len() as int;
        let end = whole.len() as int;
        if b == 0 {
            assert(whole =~= name);
            assert(floor == 0) by {
                if name.len() == 1 && name[0] == '.' {
                    assert(name =~= seq!['.']);
                }
            }
            lemma_segment_found(whole, floor, 0, end);
            assert(whole.take(0) =~= parent);
        } else if parent.last() == '/' {
            assert(b == 1) by {
                if b > body_start(parent) {
                    lemma_trimmed_end(parent, body_start(parent), b - 1);
                }
            }
            assert(whole =~= parent + name);
            assert forall|k: int| 1 <= k < end implies whole[k] != '/' by {
                assert(whole[k] == name[k - 1]);
            }
            lemma_segment_found(whole, floor, 1, end);
            assert(!is_skipped(whole, 1, end)) by {
                if end == 2 && whole[1] == '.' {
                    assert(name =~= seq!['.']);
                }
            }
            assert(whole.take(1) =~= parent);
        } else {
            assert(whole =~= parent + seq!['/'] + name);
            assert(floor == body_start(parent));
            assert forall|k: int| b + 1 <= k < end implies whole[k] != '/' by {
                assert(whole[k] == name[k - b - 1]);
            }
            lemma_segment_found(whole, floor, b + 1, end);
            assert(!is_skipped(whole, b + 1, end)) by {
                if end == b + 2 && whole[b + 1] == '.' {
                    assert(name =~= seq!['.']);
                }
            }
            assert(whole.take(b) =~= parent);
            lemma_prefix_decides(whole, floor, b, b);
        }
    }
}

/// Behind a head that is empty or ends in a separator, trimming a path stops
/// where it stops in the path alone, as long as that is above the floor.
proof fn lemma_trimmed_behind_head(head: Seq<char>, path: Seq<char>, end: int)
    requires
        head.len() == 0 || head.last() == '/',
        !is_absolute(path),
        body_start(path) <= end <= path.len(),
        trimmed_end(path, body_start(path), end) > body_start(path),
    ensures
        trimmed_end(head + path, body_start(head + path), head.len() + end) == head.len()
            + trimmed_end(path, body_start(path), end),
        segment_start(
            head + path,
            body_start(head + path),
            head.len() + trimmed_end(path, body_start(path), end),
        ) == head.len() + segment_start(
            path,
            body_start(path),
            trimmed_end(path, body_start(path), end),
        ),
    decreases end,
{
    let whole = head + path;
    let h = head.len() as int;
    let floor = body_start(path);
    if h == 0 {
        assert(whole =~= path);
    } else {
        let start = segment_start(path, floor, end);
        lemma_segment_start(path, floor, end);
        assert(whole[0] == head[0]);
        assert forall|k: int| h + start <= k < h + end implies whole[k] != '/' by {
            assert(whole[k] == path[k - h]);
        }
        if is_skipped(path, start, end) {
            assert(whole[h + start - 1] == path[start - 1]);
            lemma_segment_found(whole, body_start(whole), h + start, h + end);
            assert(is_skipped(whole, h + start, h + end)) by {
                if end == start + 1 {
                    assert(whole[h + start] == path[start]);
                }
            }
            lemma_trimmed_behind_head(head, path, start - 1);
        } else {
            assert(start == floor ==> whole[h + start - 1] == '/') by {
                if start == floor {
                    if floor == 0 {
                        assert(whole[h - 1] == head[h - 1]);
                    } else {
                        // Behind a leading dot stands a separator or nothing:
                        // no piece that counts starts there.
                        assert(path[1] == whole[h + 1]);
                    }
                }
            }
            assert(start > floor ==> whole[h + start - 1] == path[start - 1]);
            lemma_segment_found(whole, body_start(whole), h + start, h + end);
            assert(!is_skipped(whole, h + start, h + end)) by {
                if end == start + 1 {
                    assert(whole[h + start] == path[start]);
                }
            }
        }
    }
}

/// Adjoining a path to a directory keeps its file name: the path that
/// results is named as the path that was adjoined.
pub proof fn lemma_joined_keeps_name_of_path(base: Seq<char>, path: Seq<char>)
    requires
        file_name_of(path) is Some,
    ensures
        file_name_of(joined(base, path)) == file_name_of(path),
{
    if !is_absolute(path) {
        let head = with_separator(base);
        let whole = joined(base, path);
        assert(whole =~= head + path);
        let h = head.len() as int;
        let floor = body_start(path);
        if h == 0 {
            assert(whole =~= path);
        } else {
            lemma_trimmed_end(path, floor, path.len() as int);
            lemma_trimmed_behind_head(head, path, path.len() as int);
            lemma_segment_start(path, floor, name_end(path));
            assert(whole.subrange(h + name_start(path), h + name_end(path)) =~= path.subrange(
                name_start(path),
                name_end(path),
            ));
        }
    }
}

/// The characters of `text`, for indexing in constant time.
pub fn chars_of(text: &str) -> (r: Vec<char>)
    ensures
        r@ == text@,
{
    let mut out: Vec<char> = Vec::new();
    for c in it: text.chars()
        invariant
            it.seq() == text@,
            out@ == text@.take(it.index() as int),
    {
        out.push(c);
    }
    out
}

/// Whether `path` starts at the root.
pub fn absolute(path: &str) -> (r: bool)
    ensures
        r == is_absolute(path@),
{
    path.unicode_len() > 0 && path.get_char(0) == '/'
}

/// Adjoins `path` to `base`.
pub fn join(base: &str, path: &str) -> (r: String)
    ensures
        r@ == joined(base@, path@),
{
    if absolute(path) {
        return String::from_str(path);
    }
    let n: usize = base.unicode_len();
    let mut out: String = String::from_str(base);
    if n > 0 && base.get_char(n - 1) != '/' {
        proof {
            reveal_strlit("/");
            assert("/"@ =~= seq!['/']);
        }
        out.append("/");
    }
    out.append(path);
    out
}

fn floor_of(chars: &Vec<char>) -> (r: usize)
    ensures
        r == body_start(chars@),
        r <= chars.len(),
{
    let n: usize = chars.len();
    if n > 0 && (chars[0] == '/' || (chars[0] == '.' && (n == 1 || chars[1] == '/'))) {
        1
    } else {
        0
    }
}

fn segment_begin(chars: &Vec<char>, floor: usize, end: usize) -> (r: usize)
    requires
        floor <= end <= chars.len(),
    ensures
        r == segment_start(chars@, floor as int, end as int),
        floor <= r <= end,
{
    let mut i: usize = end;
    while i > floor && chars[i - 1] != '/'
        invariant
            floor <= i <= end <= chars.len(),
            segment_start(chars@, floor as int, end as int) == segment_start(
                chars@,
                floor as int,
                i as int,
            ),
        decreases i,
    {
        i -= 1;
    }
    i
}

fn trim_end(chars: &Vec<char>, floor: usize, end: usize) -> (r: usize)
    requires
        floor <= end <= chars.len(),
    ensures
        r == trimmed_end(chars@, floor as int, end as int),
        floor <= r <= end,
{
    let mut e: usize = end;
    loop
        invariant_except_break
            floor <= e <= end <= chars.len(),
            trimmed_end(chars@, floor as int, end as int) == trimmed_end(
                chars@,
                floor as int,
                e as int,
            ),
        ensures
            floor <= e <= end,
            e == trimmed_end(chars@, floor as int, end as int),
        decreases e,
    {
        if e <= floor {
            break ;
        }
        let start: usize = segment_begin(chars, floor, e);
        let skipped: bool = start == e || (start + 1 == e && chars[start] == '.');
        if !skipped {
            break ;
        }
        if start == floor {
            e = floor;
            break ;
        }
        e = start - 1;
    }
    e
}

/// The final component of `path`, if it names a file or a directory.
pub fn file_name(path: &str) -> (r: Option<String>)
    ensures
        r.deep_view() == file_name_of(path@),
{
    let chars: Vec<char> = chars_of(path);
    let floor: usize = floor_of(&chars);
    let end: usize = trim_end(&chars, floor, chars.len());
    if end == floor {
        return None;
    }
    let start: usize = segment_begin(&chars, floor, end);
    if end - start == 2 && chars[start] == '.' && chars[start + 1] == '.' {
        assert(path@.subrange(start as int, end as int) =~= dot_dot());
        return None;
    }
    assert(path@.subrange(start as int, end as int) != dot_dot()) by {
        let name = path@.subrange(start as int, end as int);
        if name == dot_dot() {
            assert(name.len() == 2);
            assert(name[0] == '.' && name[1] == '.');
            assert(name[0] == path@[start as int] && name[1] == path@[start + 1]);
        }
    }
    Some(String::from_str(path.substring_char(start, end)))
}

/// The extension of the file name of `path`, without its dot.
pub fn extension(path: &str) -> (r: Option<String>)
    ensures
        r.deep_view() == extension_of(path@),
{
    match file_name(path) {
        None => None,
        Some(name) => {
            let chars: Vec<char> = chars_of(name.as_str());
            let n: usize = chars.len();
            let mut i: usize = n;
            assert(chars@.take(n as int) =~= chars@);
            while i > 0 && chars[i - 1] != '.'
                invariant
                    i <= n == chars.len(),
                    after_last_dot(chars@) == after_last_dot(chars@.take(i as int)),
                decreases i,
            {
                assert(chars@.take(i as int).drop_last() =~= chars@.take(i - 1));
                i -= 1;
            }
            if i <= 1 {
                None
            } else {
                Some(String::from_str(name.as_str().substring_char(i, n)))
            }
        },
    }
}

/// `path` without its last component.
pub fn parent(path: &str) -> (r: Option<String>)
    ensures
        r.deep_view() == parent_of(path@),
{
    let chars: Vec<char> = chars_of(path);
    let floor: usize = floor_of(&chars);
    let end: usize = trim_end(&chars, floor, chars.len());
    if end == floor {
        if floor == 1 && chars[0] == '.' {
            Some(String::new())
        } else {
            None
        }
    } else {
        let start: usize = segment_begin(&chars, floor, end);
        let cut: usize = if start == floor {
            floor
        } else {
            start - 1
        };
        let keep: usize = trim_end(&chars, floor, cut);
        Some(String::from_str(path.substring_char(0, keep)))
    }
}

} // verus!
