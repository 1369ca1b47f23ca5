//! Working-directory arithmetic: resolving the path of a `CD` directive
//! against the current directory, by the text of the two paths alone.
//!
//! Paths are written with `/` between their segments. A path that starts
//! with `/` is absolute. Empty segments and `.` are dropped, and `..` removes
//! the segment before it, except at the root, which is its own parent, and
//! at the start of a relative path, where it is kept.

use vstd::prelude::*;
use crate::text::{chars_of, join_with, joined_with, same_text, string_of};

verus! {

/// Index of the first `/` of `path` at or after `from`; `path.len()` when
/// there is none.
pub open spec fn slash_after(path: Seq<char>, from: int) -> int
    decreases path.len() - from,
{
    if from < 0 || from >= path.len() {
        path.len() as int
    } else if path[from] == '/' {
        from
    } else {
        slash_after(path, from + 1)
    }
}

/// The segments of `path` from index `from` on: the pieces between its
/// slashes, empty ones included.
pub open spec fn segments_from(path: Seq<char>, from: int) -> Seq<Seq<char>>
    decreases path.len() - from,
{
    if from < 0 || from > path.len() {
        Seq::empty()
    } else {
        let end = slash_after(path, from);
        if from <= end < path.len() {
            seq![path.subrange(from, end)] + segments_from(path, end + 1)
        } else {
            seq![path.subrange(from, path.len() as int)]
        }
    }
}

/// The segments of `path`.
pub open spec fn segments(path: Seq<char>) -> Seq<Seq<char>> {
    segments_from(path, 0)
}

/// The root of the file system, as a stack of segments: one empty segment.
pub open spec fn is_root(stack: Seq<Seq<char>>) -> bool {
    stack.len() == 1 && stack[0].len() == 0
}

/// The directory reached from `stack` by one segment of a path. `rooted`
/// says that the segment is the empty one in front of the leading slash of
/// an absolute path, which stands for the root.
pub open spec fn step(stack: Seq<Seq<char>>, segment: Seq<char>, rooted: bool) -> Seq<Seq<char>> {
    if segment.len() == 0 {
        if rooted {
            seq![segment]
        } else {
            stack
        }
    } else if segment == "."@ {
        stack
    } else if segment == ".."@ {
        if stack.len() == 0 || stack.last() == ".."@ {
            stack.push(segment)
        } else if is_root(stack) {
            stack
        } else {
            stack.drop_last()
        }
    } else {
        stack.push(segment)
    }
}

/// The directory reached from `base` by the first `count` segments of a
/// path.
pub open spec fn walked(base: Seq<Seq<char>>, path: Seq<Seq<char>>, count: int) -> Seq<Seq<char>>
    decreases count,
{
    if count <= 0 || count > path.len() {
        base
    } else {
        step(walked(base, path, count - 1), path[count - 1], count == 1 && path.len() > 1)
    }
}

/// The path that a stack of segments stands for: `.` for the empty stack,
/// `/` for the root.
pub open spec fn joined(stack: Seq<Seq<char>>) -> Seq<char> {
    if stack.len() == 0 {
        "."@
    } else if is_root(stack) {
        "/"@
    } else {
        joined_with(stack, "/"@, stack.len() as int)
    }
}

/// The stack of segments that `path` leads to from the directory `cwd`.
pub open spec fn resolved_stack(cwd: Seq<char>, path: Seq<char>) -> Seq<Seq<char>> {
    let from = walked(Seq::empty(), segments(cwd), segments(cwd).len() as int);
    walked(from, segments(path), segments(path).len() as int)
}

/// The directory that `path` names when the working directory is `cwd`.
pub open spec fn resolved(cwd: Seq<char>, path: Seq<char>) -> Seq<char> {
    joined(resolved_stack(cwd, path))
}

fn find_slash(chars: &Vec<char>, from: usize) -> (r: usize)
    requires
        from <= chars.len(),
    ensures
        r == slash_after(chars@, from as int),
        from <= r <= chars.len(),
{
    let mut i: usize = from;
    while i < chars.len()
        invariant
            from <= i <= chars.len(),
            slash_after(chars@, from as int) == slash_after(chars@, i as int),
        decreases chars.len() - i,
    {
        if chars[i] == '/' {
            return i;
        }
        i += 1;
    }
    i
}

/// Splits a path into its segments.
pub fn split(path: &str) -> (r: Vec<String>)
    ensures
        r.deep_view() == segments(path@),
{
    let chars = chars_of(path);
    let n = chars.len();
    let mut segs: Vec<String> = Vec::new();
    let mut start: usize = 0;
    assert(segs.deep_view() + segments_from(chars@, 0) =~= segments(chars@));
    loop
        invariant
            n == chars.len(),
            chars@ == path@,
            start <= n,
            segments(chars@) == segs.deep_view() + segments_from(chars@, start as int),
        decreases n - start,
    {
        let end = find_slash(&chars, start);
        let segment = string_of(&chars, start, end);
        let ghost before = segs.deep_view();
        segs.push(segment);
        assert(segs.deep_view() =~= before.push(segment@));
        if end >= n {
            assert(before.push(segment@) =~= before + seq![segment@]);
            return segs;
        }
        assert(before.push(segment@) + segments_from(chars@, end as int + 1) =~= before + (
        seq![segment@] + segments_from(chars@, end as int + 1)));
        start = end + 1;
    }
}

/// Follows the segments of `path` from the directory `stack`.
pub fn walk(stack: &mut Vec<String>, path: &Vec<String>)
    ensures
        final(stack).deep_view() == walked(
            old(stack).deep_view(),
            path.deep_view(),
            path.len() as int,
        ),
{
    let mut i: usize = 0;
    while i < path.len()
        invariant
            i <= path.len(),
            stack.deep_view() == walked(old(stack).deep_view(), path.deep_view(), i as int),
        decreases path.len() - i,
    {
        let ghost before = stack.deep_view();
        let segment = &path[i];
        assert(segment@ == path.deep_view()[i as int]);
        if segment.as_str().unicode_len() == 0 {
            if i == 0 && path.len() > 1 {
                stack.clear();
                stack.push(segment.clone());
                assert(stack.deep_view() =~= seq![segment@]);
            }
        } else if same_text(segment.as_str(), ".") {
        } else if same_text(segment.as_str(), "..") {
            let n = stack.len();
            if n == 0 || same_text(stack[n - 1].as_str(), "..") {
                assert(n > 0 ==> stack@[n - 1]@ == before.last());
                stack.push(segment.clone());
                assert(stack.deep_view() =~= before.push(segment@));
            } else if n == 1 && stack[0].as_str().unicode_len() == 0 {
                assert(stack@[0]@ == before[0]);
            } else {
                assert(stack@[n - 1]@ == before.last());
                assert(stack@[0]@ == before[0]);
                stack.pop();
                assert(stack.deep_view() =~= before.drop_last());
            }
        } else {
            stack.push(segment.clone());
            assert(stack.deep_view() =~= before.push(segment@));
        }
        i += 1;
    }
}

/// Writes a stack of segments as a path.
pub fn join(stack: &Vec<String>) -> (r: String)
    ensures
        r@ == joined(stack.deep_view()),
{
    let n = stack.len();
    if n == 0 {
        return String::from_str(".");
    }
    assert(stack@[0]@ == stack.deep_view()[0]);
    if n == 1 && stack[0].as_str().unicode_len() == 0 {
        return String::from_str("/");
    }
    join_with(stack, "/")
}

/// The directory that `path` names when the working directory is `cwd`.
pub fn resolve(cwd: &str, path: &str) -> (r: String)
    ensures
        r@ == resolved(cwd@, path@),
{
    let mut stack: Vec<String> = Vec::new();
    assert(stack.deep_view() =~= Seq::<Seq<char>>::empty());
    walk(&mut stack, &split(cwd));
    walk(&mut stack, &split(path));
    join(&stack)
}

/// A segment that names a directory below another: it is not empty, holds
/// no slash, and is neither `.` nor `..`.
pub open spec fn plain(segment: Seq<char>) -> bool {
    segment.len() > 0 && !segment.contains('/') && segment != "."@ && segment != ".."@
}

/// A stack of segments in normal form: no segment holds a slash or is `.`,
/// only the first may be empty, and `..` stands only at the start or after
/// another `..`.
pub open spec fn tidy(stack: Seq<Seq<char>>) -> bool {
    forall|i: int|
        0 <= i < stack.len() ==> {
            &&& !(#[trigger] stack[i]).contains('/')
            &&& stack[i] != "."@
            &&& (stack[i].len() == 0 ==> i == 0)
            &&& (stack[i] == ".."@ ==> i == 0 || stack[i - 1] == ".."@)
        }
}

proof fn lemma_literals()
    ensures
        "."@ == seq!['.'],
        ".."@ == seq!['.', '.'],
        "/"@ == seq!['/'],
{
    reveal_strlit(".");
    reveal_strlit("..");
    reveal_strlit("/");
    assert("."@ =~= seq!['.']);
    assert(".."@ =~= seq!['.', '.']);
    assert("/"@ =~= seq!['/']);
}

/// `slash_after` finds the least index at or after `from` that holds a
/// slash.
pub proof fn lemma_slash_after(path: Seq<char>, from: int)
    requires
        0 <= from <= path.len(),
    ensures
        from <= slash_after(path, from) <= path.len(),
        slash_after(path, from) < path.len() ==> path[slash_after(path, from)] == '/',
        forall|j: int| from <= j < slash_after(path, from) ==> path[j] != '/',
    decreases path.len() - from,
{
    if from < path.len() && path[from] != '/' {
        lemma_slash_after(path, from + 1);
    }
}

proof fn lemma_slash_after_extended(a: Seq<char>, c: Seq<char>, from: int)
    requires
        a.len() <= c.len(),
        forall|i: int| 0 <= i < a.len() ==> c[i] == a[i],
        0 <= from <= a.len(),
    ensures
        slash_after(a, from) < a.len() ==> slash_after(c, from) == slash_after(a, from),
        slash_after(a, from) >= a.len() ==> slash_after(c, from) == slash_after(
            c,
            a.len() as int,
        ),
    decreases a.len() - from,
{
    if from < a.len() && a[from] != '/' {
        lemma_slash_after_extended(a, c, from + 1);
    }
}

/// A text without a slash is one segment.
pub proof fn lemma_single_segment(text: Seq<char>)
    requires
        !text.contains('/'),
    ensures
        segments(text) == seq![text],
{
    lemma_slash_after(text, 0);
    if slash_after(text, 0) < text.len() {
        assert(text.contains(text[slash_after(text, 0)]));
    }
    assert(text.subrange(0, text.len() as int) =~= text);
}

/// No segment of a path holds a slash.
pub proof fn lemma_segments_hold_no_slash(path: Seq<char>, from: int)
    requires
        0 <= from <= path.len(),
    ensures
        forall|i: int|
            0 <= i < segments_from(path, from).len() ==> !(#[trigger] segments_from(
                path,
                from,
            )[i]).contains('/'),
    decreases path.len() - from,
{
    let end = slash_after(path, from);
    lemma_slash_after(path, from);
    if end < path.len() {
        lemma_segments_hold_no_slash(path, end + 1);
        let head = path.subrange(from, end);
        let tail = segments_from(path, end + 1);
        assert(segments_from(path, from) == seq![head] + tail);
        assert forall|i: int| 0 <= i < segments_from(path, from).len() implies !(
        #[trigger] segments_from(path, from)[i]).contains('/') by {
            if i == 0 {
                assert(segments_from(path, from)[0] == head);
                if head.contains('/') {
                    let j = choose|j: int| 0 <= j < head.len() && head[j] == '/';
                    assert(path[from + j] == '/');
                }
            } else {
                assert(segments_from(path, from)[i] == tail[i - 1]);
            }
        }
    } else {
        let head = path.subrange(from, path.len() as int);
        assert(segments_from(path, from) == seq![head]);
        if head.contains('/') {
            let j = choose|j: int| 0 <= j < head.len() && head[j] == '/';
            assert(path[from + j] == '/');
        }
    }
}

/// Splitting a path to which a slash and one more segment were appended
/// gives the segments of the path and then that segment.
pub proof fn lemma_split_appended(a: Seq<char>, b: Seq<char>, from: int)
    requires
        0 <= from <= a.len(),
        !b.contains('/'),
    ensures
        segments_from(a + seq!['/'] + b, from) == segments_from(a, from).push(b),
    decreases a.len() - from,
{
    let c = a + seq!['/'] + b;
    let end = slash_after(a, from);
    lemma_slash_after(a, from);
    lemma_slash_after_extended(a, c, from);
    if end < a.len() {
        lemma_split_appended(a, b, end + 1);
        assert(c.subrange(from, end) =~= a.subrange(from, end));
        assert(seq![a.subrange(from, end)] + segments_from(a, end + 1).push(b) =~= (seq![
            a.subrange(from, end),
        ] + segments_from(a, end + 1)).push(b));
    } else {
        let n = a.len() as int;
        assert(c[n] == '/');
        assert(slash_after(c, n) == n);
        assert(slash_after(c, from) == n);
        assert(c.subrange(from, n) =~= a.subrange(from, n));
        lemma_slash_after(c, n + 1);
        if slash_after(c, n + 1) < c.len() {
            let j = slash_after(c, n + 1);
            assert(b[j - n - 1] == '/');
            assert(b.contains(b[j - n - 1]));
        }
        assert(c.subrange(n + 1, c.len() as int) =~= b);
        assert(segments_from(c, n + 1) == seq![b]);
        assert(seq![a.subrange(from, n)] + seq![b] =~= seq![a.subrange(from, n)].push(b));
    }
}

/// Splitting what was joined gives back the segments, where none of them
/// holds a slash.
pub proof fn lemma_split_joined(stack: Seq<Seq<char>>, count: int)
    requires
        1 <= count <= stack.len(),
        forall|i: int| 0 <= i < count ==> !(#[trigger] stack[i]).contains('/'),
    ensures
        segments(joined_with(stack, "/"@, count)) == stack.take(count),
    decreases count,
{
    lemma_literals();
    if count == 1 {
        lemma_single_segment(stack[0]);
        assert(stack.take(1) =~= seq![stack[0]]);
    } else {
        lemma_split_joined(stack, count - 1);
        lemma_split_appended(joined_with(stack, "/"@, count - 1), stack[count - 1], 0);
        assert(stack.take(count - 1).push(stack[count - 1]) =~= stack.take(count));
    }
}

/// One step from a stack in normal form leads to a stack in normal form.
pub proof fn lemma_step_tidy(stack: Seq<Seq<char>>, segment: Seq<char>, rooted: bool)
    requires
        tidy(stack),
        !segment.contains('/'),
    ensures
        tidy(step(stack, segment, rooted)),
{
    lemma_literals();
    let next = step(stack, segment, rooted);
    assert forall|i: int| 0 <= i < next.len() implies {
        &&& !(#[trigger] next[i]).contains('/')
        &&& next[i] != "."@
        &&& (next[i].len() == 0 ==> i == 0)
        &&& (next[i] == ".."@ ==> i == 0 || next[i - 1] == ".."@)
    } by {
        if segment.len() == 0 {
            if rooted {
                assert(next[0] == segment);
            }
        } else if segment == "."@ {
        } else if segment == ".."@ {
            if stack.len() == 0 || stack.last() == ".."@ {
                if i < stack.len() {
                    assert(next[i] == stack[i]);
                    if i > 0 {
                        assert(next[i - 1] == stack[i - 1]);
                    }
                } else {
                    assert(next[i] == segment);
                    if i > 0 {
                        assert(next[i - 1] == stack.last());
                    }
                }
            } else if is_root(stack) {
            } else {
                assert(next[i] == stack[i]);
                if i > 0 {
                    assert(next[i - 1] == stack[i - 1]);
                }
            }
        } else {
            if i < stack.len() {
                assert(next[i] == stack[i]);
                if i > 0 {
                    assert(next[i - 1] == stack[i - 1]);
                }
            } else {
                assert(next[i] == segment);
            }
        }
    }
}

/// Walking from a stack in normal form leads to a stack in normal form.
pub proof fn lemma_walked_tidy(base: Seq<Seq<char>>, path: Seq<Seq<char>>, count: int)
    requires
        tidy(base),
        forall|i: int| 0 <= i < path.len() ==> !(#[trigger] path[i]).contains('/'),
    ensures
        tidy(walked(base, path, count)),
    decreases count,
{
    if 0 < count <= path.len() {
        lemma_walked_tidy(base, path, count - 1);
        lemma_step_tidy(
            walked(base, path, count - 1),
            path[count - 1],
            count == 1 && path.len() > 1,
        );
    }
}

/// Walking the segments of a stack in normal form from nowhere builds that
/// stack again.
pub proof fn lemma_walk_rebuilds(stack: Seq<Seq<char>>, count: int)
    requires
        tidy(stack),
        !is_root(stack),
        0 <= count <= stack.len(),
    ensures
        walked(Seq::empty(), stack, count) == stack.take(count),
    decreases count,
{
    lemma_literals();
    if count == 0 {
        assert(stack.take(0) =~= Seq::<Seq<char>>::empty());
    } else {
        lemma_walk_rebuilds(stack, count - 1);
        let before = stack.take(count - 1);
        let segment = stack[count - 1];
        if segment.len() == 0 {
            assert(count == 1);
            assert(stack.take(1) =~= seq![segment]);
        } else if segment == ".."@ {
            if count > 1 {
                assert(before.last() == stack[count - 2]);
            }
            assert(before.push(segment) =~= stack.take(count));
        } else {
            assert(before.push(segment) =~= stack.take(count));
        }
    }
}

/// A stack in normal form is found again from the path that it is written
/// as.
pub proof fn lemma_round_trip(stack: Seq<Seq<char>>)
    requires
        tidy(stack),
    ensures
        walked(
            Seq::empty(),
            segments(joined(stack)),
            segments(joined(stack)).len() as int,
        ) == stack,
{
    lemma_literals();
    let empty = Seq::<Seq<char>>::empty();
    if stack.len() == 0 {
        let dot = seq!['.'];
        lemma_single_segment(dot);
        assert(walked(empty, seq![dot], 0) == empty);
        assert(walked(empty, seq![dot], 1) == step(empty, dot, false));
        assert(stack =~= empty);
    } else if is_root(stack) {
        let slash = seq!['/'];
        let nothing = Seq::<char>::empty();
        assert(slash_after(slash, 0) == 0);
        assert(slash_after(slash, 1) == 1);
        assert(slash.subrange(0, 0) =~= nothing);
        assert(slash.subrange(1, 1) =~= nothing);
        assert(segments_from(slash, 1) == seq![nothing]);
        assert(segments(slash) == seq![nothing] + seq![nothing]);
        let both = seq![nothing] + seq![nothing];
        assert(both.len() == 2 && both[0] == nothing && both[1] == nothing);
        assert(walked(empty, both, 0) == empty);
        assert(walked(empty, both, 1) == step(empty, nothing, true));
        assert(walked(empty, both, 2) == step(walked(empty, both, 1), nothing, false));
        assert(stack[0] =~= nothing);
        assert(stack =~= seq![nothing]);
    } else {
        lemma_split_joined(stack, stack.len() as int);
        assert(stack.take(stack.len() as int) =~= stack);
        lemma_walk_rebuilds(stack, stack.len() as int);
    }
}

/// The stack that a path resolves to is in normal form.
pub proof fn lemma_resolved_stack_tidy(cwd: Seq<char>, path: Seq<char>)
    ensures
        tidy(resolved_stack(cwd, path)),
        tidy(walked(Seq::empty(), segments(cwd), segments(cwd).len() as int)),
{
    lemma_segments_hold_no_slash(cwd, 0);
    lemma_segments_hold_no_slash(path, 0);
    lemma_walked_tidy(Seq::empty(), segments(cwd), segments(cwd).len() as int);
    lemma_walked_tidy(
        walked(Seq::empty(), segments(cwd), segments(cwd).len() as int),
        segments(path),
        segments(path).len() as int,
    );
}

/// A resolved directory is in normal form: resolving `.` against it gives
/// it back.
pub proof fn law_resolved_is_normal(cwd: Seq<char>, path: Seq<char>)
    ensures
        resolved(resolved(cwd, path), "."@) == resolved(cwd, path),
{
    lemma_literals();
    let stack = resolved_stack(cwd, path);
    lemma_resolved_stack_tidy(cwd, path);
    lemma_round_trip(stack);
    let dot = seq!['.'];
    lemma_single_segment(dot);
    assert(walked(stack, seq![dot], 0) == stack);
    assert(walked(stack, seq![dot], 1) == step(stack, dot, false));
}

/// Entering a directory by its name and then leaving it by `..` leads back:
/// to the directory one started from, in normal form.
pub proof fn law_enter_then_leave(cwd: Seq<char>, name: Seq<char>)
    requires
        plain(name),
    ensures
        resolved(resolved(cwd, name), ".."@) == resolved(cwd, "."@),
{
    lemma_literals();
    let dot = seq!['.'];
    let up = seq!['.', '.'];
    let home = walked(Seq::empty(), segments(cwd), segments(cwd).len() as int);
    lemma_resolved_stack_tidy(cwd, name);
    lemma_single_segment(name);
    lemma_single_segment(dot);
    assert(!up.contains('/'));
    lemma_single_segment(up);
    assert(walked(home, seq![name], 0) == home);
    assert(walked(home, seq![name], 1) == step(home, name, false));
    let inside = home.push(name);
    assert(resolved_stack(cwd, name) == inside);
    lemma_round_trip(inside);
    assert(walked(inside, seq![up], 0) == inside);
    assert(walked(inside, seq![up], 1) == step(inside, up, false));
    assert(inside.last() == name);
    assert(inside.drop_last() =~= home);
    assert(resolved_stack(resolved(cwd, name), up) == home);
    assert(walked(home, seq![dot], 0) == home);
    assert(walked(home, seq![dot], 1) == step(home, dot, false));
    assert(resolved_stack(cwd, dot) == home);
}

} // verus!
