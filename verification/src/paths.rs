//! Unix paths, as texts.

use vstd::prelude::*;
use vstd::string::*;

use crate::text;

verus! {

/// A path below a directory. An absolute one stays as it is.
pub open spec fn joined_path(dir: Seq<char>, path: Seq<char>) -> Seq<char> {
    if text::has_prefix(path, "/"@) || dir.len() == 0 {
        path
    } else if dir.last() == '/' {
        dir + path
    } else {
        dir + "/"@ + path
    }
}

/// A path below a directory.
pub fn join_path(dir: &str, path: &str) -> (joined: String)
    ensures
        joined@ == joined_path(dir@, path@),
{
    let chars = text::chars_of(dir);
    if text::starts_with(path, "/") || chars.len() == 0 {
        return path.to_owned();
    }
    let mut joined = dir.to_owned();
    if chars[chars.len() - 1] != '/' {
        text::push_text(&mut joined, "/");
    }
    text::push_text(&mut joined, path);
    joined
}

/// The pieces between the separators of a text.
pub open spec fn pieces(s: Seq<char>, separator: char) -> Seq<Seq<char>>
    decreases s.len(),
{
    if s.len() == 0 {
        seq![seq![]]
    } else if s.last() == separator {
        pieces(s.drop_last(), separator).push(seq![])
    } else {
        let before = pieces(s.drop_last(), separator);
        before.drop_last().push(before.last().push(s.last()))
    }
}

/// The pieces between the separators of a text.
pub fn split(s: &str, separator: char) -> (list: Vec<String>)
    ensures
        text::texts(list@) == pieces(s@, separator),
{
    let chars = text::chars_of(s);
    let mut list: Vec<String> = Vec::new();
    let mut current = String::new();
    let mut i: usize = 0;
    assert(s@.take(0) =~= seq![]);
    assert(text::texts(list@).push(current@) =~= seq![seq![]]);
    while i < chars.len()
        invariant
            i <= chars.len(),
            chars@ == s@,
            text::texts(list@).push(current@) == pieces(s@.take(i as int), separator),
        decreases chars.len() - i,
    {
        let ghost before = text::texts(list@);
        let ghost piece = current@;
        proof {
            assert(s@.take(i + 1).drop_last() =~= s@.take(i as int));
            assert(before.push(piece).drop_last() =~= before);
        }
        if chars[i] == separator {
            list.push(current);
            current = String::new();
            assert(text::texts(list@) =~= before.push(piece));
        } else {
            current.push(chars[i]);
        }
        i += 1;
    }
    assert(s@.take(i as int) =~= s@);
    let ghost before = text::texts(list@);
    let ghost piece = current@;
    list.push(current);
    assert(text::texts(list@) =~= before.push(piece));
    list
}

/// One component more, behind components that are normal already: an empty one and
/// `.` change nothing, `..` takes the last one away. At the root there is nothing
/// to take away; at the front of a relative path `..` stays.
pub open spec fn step(done: Seq<Seq<char>>, component: Seq<char>, absolute: bool) -> Seq<
    Seq<char>,
> {
    if component.len() == 0 || component == "."@ {
        done
    } else if component == ".."@ {
        if done.len() > 0 && done.last() != ".."@ {
            done.drop_last()
        } else if absolute {
            done
        } else {
            done.push(component)
        }
    } else {
        done.push(component)
    }
}

/// The components of a path without `.` and, as far as possible, without `..`.
pub open spec fn collapsed(components: Seq<Seq<char>>, absolute: bool) -> Seq<Seq<char>>
    decreases components.len(),
{
    if components.len() == 0 {
        seq![]
    } else {
        step(collapsed(components.drop_last(), absolute), components.last(), absolute)
    }
}

/// A path in normal form.
pub open spec fn normalized(path: Seq<char>) -> Seq<char> {
    let absolute = text::has_prefix(path, "/"@);
    let rest = text::joined(collapsed(pieces(path, '/'), absolute), "/"@);
    if absolute {
        "/"@ + rest
    } else {
        rest
    }
}

/// A path in normal form: `.` and `..` collapsed without a look at the disk.
pub fn normalize(path: &str) -> (normal: String)
    ensures
        normal@ == normalized(path@),
{
    let absolute = text::starts_with(path, "/");
    let components = split(path, '/');
    let ghost all = pieces(path@, '/');
    let mut done: Vec<String> = Vec::new();
    let mut i: usize = 0;
    assert(text::texts(done@) =~= seq![]);
    assert(all.take(0) =~= seq![]);
    while i < components.len()
        invariant
            i <= components@.len(),
            all == text::texts(components@),
            text::texts(done@) == collapsed(all.take(i as int), absolute),
        decreases components.len() - i,
    {
        let ghost before = text::texts(done@);
        let component = components[i].as_str();
        proof {
            assert(all.take(i + 1).drop_last() =~= all.take(i as int));
            assert(all[i as int] == component@);
        }
        if text::chars_of(component).len() == 0 || text::same_text(component, ".") {
        } else if text::same_text(component, "..") {
            if done.len() > 0 && !text::same_text(done[done.len() - 1].as_str(), "..") {
                done.pop();
                assert(text::texts(done@) =~= before.drop_last());
            } else if !absolute {
                done.push(component.to_owned());
                assert(text::texts(done@) =~= before.push(component@));
            }
        } else {
            done.push(component.to_owned());
            assert(text::texts(done@) =~= before.push(component@));
        }
        i += 1;
    }
    assert(all.take(i as int) =~= all);
    let rest = text::join(done.as_slice(), "/");
    if absolute {
        let mut normal = "/".to_owned();
        text::push_text(&mut normal, rest.as_str());
        normal
    } else {
        rest
    }
}

/// Components that need no collapsing.
pub open spec fn is_collapsed(components: Seq<Seq<char>>) -> bool {
    forall|i: int|
        0 <= i < components.len() ==> (#[trigger] components[i]).len() > 0 && components[i] != "."@
            && components[i] != ".."@
}

proof fn lemma_collapsed_absolute(components: Seq<Seq<char>>)
    ensures
        is_collapsed(collapsed(components, true)),
    decreases components.len(),
{
    if components.len() > 0 {
        lemma_collapsed_absolute(components.drop_last());
    }
}

proof fn lemma_collapsed_fixed(components: Seq<Seq<char>>, absolute: bool)
    requires
        is_collapsed(components),
    ensures
        collapsed(components, absolute) == components,
    decreases components.len(),
{
    if components.len() > 0 {
        lemma_collapsed_fixed(components.drop_last(), absolute);
        assert(components.last() == components[components.len() - 1]);
        assert(components.drop_last().push(components.last()) =~= components);
    }
}

/// The normal form of an absolute path has no component that is empty, `.` or
/// `..`, and collapsing it again changes nothing.
pub proof fn law_normal_components(path: Seq<char>)
    requires
        text::has_prefix(path, "/"@),
    ensures
        ({
            let components = collapsed(pieces(path, '/'), true);
            &&& normalized(path) == "/"@ + text::joined(components, "/"@)
            &&& is_collapsed(components)
            &&& collapsed(components, true) == components
        }),
{
    lemma_collapsed_absolute(pieces(path, '/'));
    lemma_collapsed_fixed(collapsed(pieces(path, '/'), true), true);
}

/// No text of a list holds a separator.
spec fn unseparated(list: Seq<Seq<char>>, separator: char) -> bool {
    forall|i: int| 0 <= i < list.len() ==> !(#[trigger] list[i]).contains(separator)
}

proof fn lemma_pieces_unseparated(s: Seq<char>, separator: char)
    ensures
        pieces(s, separator).len() > 0,
        unseparated(pieces(s, separator), separator),
    decreases s.len(),
{
    if s.len() > 0 {
        lemma_pieces_unseparated(s.drop_last(), separator);
        let before = pieces(s.drop_last(), separator);
        let last = before.last();
        assert(last == before[before.len() - 1]);
        if s.last() != separator {
            assert forall|j: int| 0 <= j < last.push(s.last()).len() implies last.push(
                s.last(),
            )[j] != separator by {
                if j < last.len() {
                    assert(last.contains(last[j]));
                }
            }
        }
    }
}

proof fn lemma_collapsed_unseparated(components: Seq<Seq<char>>, absolute: bool, separator: char)
    requires
        unseparated(components, separator),
    ensures
        unseparated(collapsed(components, absolute), separator),
    decreases components.len(),
{
    if components.len() > 0 {
        lemma_collapsed_unseparated(components.drop_last(), absolute, separator);
        assert(components.last() == components[components.len() - 1]);
    }
}

/// A text without separators lengthens the last piece.
proof fn lemma_pieces_append(s: Seq<char>, tail: Seq<char>, separator: char)
    requires
        !tail.contains(separator),
    ensures
        pieces(s + tail, separator) == pieces(s, separator).drop_last().push(
            pieces(s, separator).last() + tail,
        ),
    decreases tail.len(),
{
    lemma_pieces_unseparated(s, separator);
    let all = pieces(s, separator);
    if tail.len() == 0 {
        assert(s + tail =~= s);
        assert(all.last() + tail =~= all.last());
        assert(all.drop_last().push(all.last()) =~= all);
    } else {
        let shorter = tail.drop_last();
        assert forall|j: int| 0 <= j < shorter.len() implies shorter[j] != separator by {
            assert(tail.contains(tail[j]));
        }
        lemma_pieces_append(s, shorter, separator);
        assert(tail.contains(tail[tail.len() - 1]));
        assert((s + tail).drop_last() =~= s + shorter);
        let before = pieces(s + shorter, separator);
        assert(before.drop_last() =~= all.drop_last());
        assert(before.last().push(tail.last()) =~= all.last() + tail);
    }
}

/// Components behind one separator each are the pieces of the path that they make.
proof fn lemma_pieces_joined(components: Seq<Seq<char>>)
    requires
        unseparated(components, '/'),
        components.len() > 0,
    ensures
        pieces("/"@ + text::joined(components, "/"@), '/') == seq![Seq::<char>::empty()]
            + components,
    decreases components.len(),
{
    reveal_strlit("/");
    let last = components.last();
    assert(last == components[components.len() - 1]);
    let front = if components.len() == 1 {
        Seq::<char>::empty()
    } else {
        "/"@ + text::joined(components.drop_last(), "/"@)
    };
    if components.len() > 1 {
        lemma_pieces_joined(components.drop_last());
    }
    assert(pieces(front, '/') =~= seq![Seq::<char>::empty()] + components.drop_last());
    let slashed = front.push('/');
    assert(slashed.drop_last() =~= front);
    assert(pieces(slashed, '/') == pieces(front, '/').push(seq![]));
    lemma_pieces_append(slashed, last, '/');
    assert("/"@ + text::joined(components, "/"@) =~= slashed + last);
    assert(pieces(slashed, '/').drop_last() =~= pieces(front, '/'));
    assert(pieces(slashed, '/').last() + last =~= last);
    assert(pieces(front, '/').push(last) =~= seq![Seq::<char>::empty()] + components);
}

/// Normalizing an absolute path twice is normalizing it once.
pub proof fn law_normalize_idempotent(path: Seq<char>)
    requires
        text::has_prefix(path, "/"@),
    ensures
        normalized(normalized(path)) == normalized(path),
{
    reveal_strlit("/");
    let components = collapsed(pieces(path, '/'), true);
    law_normal_components(path);
    lemma_pieces_unseparated(path, '/');
    lemma_collapsed_unseparated(pieces(path, '/'), true, '/');
    let normal = normalized(path);
    assert(text::has_prefix(normal, "/"@)) by {
        assert(normal.take(1) =~= "/"@);
    }
    if components.len() == 0 {
        assert(normal =~= seq!['/']);
        assert(normal.drop_last() =~= seq![]);
        assert(pieces(normal.drop_last(), '/') == seq![Seq::<char>::empty()]);
        assert(pieces(normal, '/') == pieces(normal.drop_last(), '/').push(seq![]));
        assert(pieces(normal, '/') =~= seq![seq![], seq![]]);
        assert(pieces(normal, '/').drop_last() =~= seq![Seq::<char>::empty()]);
        assert(seq![Seq::<char>::empty()].drop_last() =~= seq![]);
        reveal_with_fuel(collapsed, 3);
    } else {
        lemma_pieces_joined(components);
        lemma_collapsed_behind_root(components);
    }
}

proof fn lemma_collapsed_behind_root(components: Seq<Seq<char>>)
    requires
        is_collapsed(components),
    ensures
        collapsed(seq![Seq::<char>::empty()] + components, true) == components,
    decreases components.len(),
{
    let all = seq![Seq::<char>::empty()] + components;
    if components.len() == 0 {
        assert(all.drop_last() =~= seq![]);
        assert(all.last().len() == 0);
        assert(collapsed(all.drop_last(), true).len() == 0);
        assert(collapsed(all, true) =~= components);
    } else {
        lemma_collapsed_behind_root(components.drop_last());
        assert(all.drop_last() =~= seq![Seq::<char>::empty()] + components.drop_last());
        assert(components.last() == components[components.len() - 1]);
        assert(components.drop_last().push(components.last()) =~= components);
    }
}

/// A path without separators and `.` components at its end.
pub open spec fn without_tail(path: Seq<char>) -> Seq<char>
    decreases path.len(),
{
    let n = path.len() as int;
    if n > 1 && path[n - 1] == '/' {
        without_tail(path.drop_last())
    } else if n > 1 && path[n - 1] == '.' && path[n - 2] == '/' {
        without_tail(path.drop_last())
    } else {
        path
    }
}

/// The index of the last separator, or -1.
pub open spec fn last_separator(path: Seq<char>) -> int
    decreases path.len(),
{
    if path.len() == 0 {
        -1
    } else if path.last() == '/' {
        path.len() - 1
    } else {
        last_separator(path.drop_last())
    }
}

/// The directory of a path. The root and the empty path have none.
pub open spec fn parent_of(path: Seq<char>) -> Option<Seq<char>> {
    let t = without_tail(path);
    let at = last_separator(t);
    if t.len() == 0 || t == "/"@ {
        None
    } else if at < 0 {
        Some(seq![])
    } else if at == 0 {
        Some("/"@)
    } else {
        Some(without_tail(t.take(at)))
    }
}

/// The directory `steps` steps up.
pub open spec fn ancestor_of(path: Seq<char>, steps: nat) -> Option<Seq<char>>
    decreases steps,
{
    if steps == 0 {
        Some(path)
    } else {
        match parent_of(path) {
            None => None,
            Some(dir) => ancestor_of(dir, (steps - 1) as nat),
        }
    }
}

fn trim_tail(path: &Vec<char>) -> (n: usize)
    ensures
        n <= path@.len(),
        path@.take(n as int) == without_tail(path@),
{
    let mut n: usize = path.len();
    assert(path@.take(n as int) =~= path@);
    while n > 1 && (path[n - 1] == '/' || (path[n - 1] == '.' && path[n - 2] == '/'))
        invariant
            n <= path@.len(),
            without_tail(path@) == without_tail(path@.take(n as int)),
        decreases n,
    {
        assert(path@.take(n as int).drop_last() =~= path@.take(n - 1));
        n -= 1;
    }
    n
}

/// The directory of a path.
pub fn parent(path: &str) -> (dir: Option<String>)
    ensures
        match dir {
            Some(dir) => parent_of(path@) == Some(dir@),
            None => parent_of(path@) is None,
        },
{
    let chars = text::chars_of(path);
    let n = trim_tail(&chars);
    let ghost t = without_tail(path@);
    proof {
        reveal_strlit("/");
    }
    if n == 0 {
        return None;
    }
    if n == 1 && chars[0] == '/' {
        assert(t =~= "/"@);
        return None;
    }
    assert(t != "/"@) by {
        if t == "/"@ {
            assert(t[0] == '/');
        }
    }
    let mut i: usize = n;
    assert(t.take(n as int) =~= t);
    while i > 0 && chars[i - 1] != '/'
        invariant
            i <= n,
            t == chars@.take(n as int),
            n <= chars@.len(),
            last_separator(t) == last_separator(t.take(i as int)),
        decreases i,
    {
        assert(t.take(i as int).drop_last() =~= t.take(i - 1));
        i -= 1;
    }
    if i == 0 {
        return Some(String::new());
    }
    assert(last_separator(t) == i - 1);
    if i == 1 {
        return Some("/".to_owned());
    }
    let mut front: Vec<char> = Vec::new();
    let mut k: usize = 0;
    while k < i - 1
        invariant
            k <= i - 1,
            i <= n,
            n <= chars@.len(),
            front@ == chars@.take(k as int),
        decreases i - k,
    {
        front.push(chars[k]);
        k += 1;
        assert(front@ =~= chars@.take(k as int));
    }
    assert(front@ =~= t.take(i - 1));
    let m = trim_tail(&front);
    Some(text::string_of(vstd::slice::slice_subrange(front.as_slice(), 0, m)))
}

/// The directory a number of steps up.
pub fn ancestor(path: &str, steps: usize) -> (dir: Option<String>)
    ensures
        match dir {
            Some(dir) => ancestor_of(path@, steps as nat) == Some(dir@),
            None => ancestor_of(path@, steps as nat) is None,
        },
{
    let mut current = path.to_owned();
    let mut left: usize = steps;
    while left > 0
        invariant
            ancestor_of(path@, steps as nat) == ancestor_of(current@, left as nat),
        decreases left,
    {
        match parent(current.as_str()) {
            None => {
                return None;
            },
            Some(dir) => {
                current = dir;
            },
        }
        left -= 1;
    }
    Some(current)
}

/// A file test may answer `answer` for a path.
pub open spec fn says<F: Fn(&str) -> bool>(test: F, path: Seq<char>, answer: bool) -> bool {
    exists|key: &str| #[trigger] test.ensures((key,), answer) && key@ == path
}

/// `normal` may be what a normalizer makes of a URI.
pub open spec fn normalizes<N: Fn(&str) -> String>(
    normalizer: N,
    uri: Seq<char>,
    normal: Seq<char>,
) -> bool {
    exists|key: &str, answer: String| #[trigger]
        normalizer.ensures((key,), answer) && key@ == uri && answer@ == normal
}

/// What a normalizer makes of a URI.
pub fn normal_uri<N: Fn(&str) -> String>(normalizer: &N, uri: &str) -> (normal: String)
    requires
        forall|uri: &str| normalizer.requires((uri,)),
    ensures
        normalizes(*normalizer, uri@, normal@),
{
    normalizer(uri)
}

/// Splitting a text and joining the pieces with the separator gives the text back, and no piece
/// holds the separator.
pub proof fn law_pieces_rejoin(s: Seq<char>, separator: char)
    ensures
        text::joined(pieces(s, separator), seq![separator]) == s,
        forall|k: int|
            0 <= k < pieces(s, separator).len() ==> !(#[trigger] pieces(
                s,
                separator,
            )[k]).contains(separator),
    decreases s.len(),
{
    lemma_pieces_unseparated(s, separator);
    let all = pieces(s, separator);
    if s.len() == 0 {
        assert(text::joined(all, seq![separator]) =~= s);
    } else {
        law_pieces_rejoin(s.drop_last(), separator);
        lemma_pieces_unseparated(s.drop_last(), separator);
        let before = pieces(s.drop_last(), separator);
        let glue = seq![separator];
        if s.last() == separator {
            assert(all.drop_last() =~= before);
            assert(text::joined(all, glue) =~= s);
        } else {
            assert(all.drop_last() =~= before.drop_last());
            assert(all.last() == before.last().push(s.last()));
            assert(all.len() == before.len());
            if before.len() == 1 {
                assert(all[0] == before[0].push(s.last()));
            } else {
                let front = text::joined(before.drop_last(), glue);
                assert(text::joined(before, glue) == front + glue + before.last());
                assert(text::joined(all, glue) == front + glue + all.last());
                assert(front + glue + before.last().push(s.last()) =~= (front + glue
                    + before.last()).push(s.last()));
            }
            assert(s.drop_last().push(s.last()) =~= s);
            assert(text::joined(all, glue) =~= s);
        }
    }
}

/// A relative path is put below a directory with one separator between them; an absolute path
/// stays as it is.
pub proof fn law_joined_below(dir: Seq<char>, path: Seq<char>)
    ensures
        path.len() > 0 && path[0] == '/' ==> joined_path(dir, path) == path,
        dir.len() == 0 ==> joined_path(dir, path) == path,
        dir.len() > 0 && dir.last() != '/' && (path.len() == 0 || path[0] != '/') ==> joined_path(
            dir,
            path,
        ) == dir + seq!['/'] + path,
        dir.len() > 0 && dir.last() == '/' && (path.len() == 0 || path[0] != '/') ==> joined_path(
            dir,
            path,
        ) == dir + path,
{
    reveal_strlit("/");
    assert("/"@ =~= seq!['/']);
    if path.len() > 0 && path[0] == '/' {
        assert(path.take(1) =~= "/"@);
    }
    if text::has_prefix(path, "/"@) {
        assert(path.take(1)[0] == '/');
    }
}

/// `.` and an empty component change nothing, `..` takes the component before it away, and every
/// other component stays.
pub proof fn law_components_collapse(done: Seq<Seq<char>>, name: Seq<char>, absolute: bool)
    requires
        name.len() > 0,
        name != "."@,
        name != ".."@,
    ensures
        collapsed(done.push("."@), absolute) == collapsed(done, absolute),
        collapsed(done.push(Seq::<char>::empty()), absolute) == collapsed(done, absolute),
        collapsed(done.push(name), absolute) == collapsed(done, absolute).push(name),
        collapsed(done.push(name).push(".."@), absolute) == collapsed(done, absolute),
        collapsed(seq![".."@], absolute) =~= (if absolute {
            Seq::<Seq<char>>::empty()
        } else {
            seq![".."@]
        }),
{
    reveal_strlit(".");
    reveal_strlit("..");
    assert("."@.len() == 1 && ".."@.len() == 2);
    assert(done.push("."@).drop_last() =~= done);
    assert(done.push(Seq::<char>::empty()).drop_last() =~= done);
    assert(done.push(name).drop_last() =~= done);
    assert(done.push(name).push(".."@).drop_last() =~= done.push(name));
    let kept = collapsed(done, absolute);
    assert(kept.push(name).drop_last() =~= kept);
    reveal_with_fuel(collapsed, 2);
    assert(seq![".."@].drop_last() =~= Seq::<Seq<char>>::empty());
}

/// The directory of a path below a directory is that directory.
pub proof fn law_parent_of_child(dir: Seq<char>, name: Seq<char>)
    requires
        dir.len() > 0,
        dir.last() != '/',
        dir.len() > 1 ==> !(dir.last() == '.' && dir[dir.len() - 2] == '/'),
        name.len() > 0,
        !name.contains('/'),
        name != "."@,
    ensures
        parent_of(dir + seq!['/'] + name) == Some(dir),
{
    let path = dir + seq!['/'] + name;
    let n = path.len() as int;
    reveal_strlit("/");
    reveal_strlit(".");
    assert("/"@.len() == 1);
    assert(name.contains(name[name.len() - 1]));
    assert(path[n - 1] == name[name.len() - 1]);
    if name.len() == 1 {
        assert(path[n - 2] == '/');
        if name[0] == '.' {
            assert(name =~= "."@);
        }
    } else {
        assert(path[n - 2] == name[name.len() - 2]);
        assert(name.contains(name[name.len() - 2]));
    }
    assert(without_tail(path) == path);
    lemma_last_separator(dir, name);
    assert(path.take(dir.len() as int) =~= dir);
}

proof fn lemma_last_separator(dir: Seq<char>, name: Seq<char>)
    requires
        !name.contains('/'),
    ensures
        last_separator(dir + seq!['/'] + name) == dir.len(),
    decreases name.len(),
{
    let path = dir + seq!['/'] + name;
    if name.len() > 0 {
        assert(name.contains(name[name.len() - 1]));
        let shorter = name.drop_last();
        assert(path.drop_last() =~= dir + seq!['/'] + shorter);
        assert forall|j: int| 0 <= j < shorter.len() implies shorter[j] != '/' by {
            assert(name.contains(name[j]));
        }
        lemma_last_separator(dir, shorter);
    } else {
        assert(path.last() == '/');
    }
}

/// Steps up add: the directory some steps above a directory some steps up is the one as many steps
/// up as both together, and one step up is the directory of the path.
pub proof fn law_steps_add(path: Seq<char>, first: nat, second: nat)
    ensures
        ancestor_of(path, first + second) == (match ancestor_of(path, first) {
            Some(dir) => ancestor_of(dir, second),
            None => None,
        }),
        ancestor_of(path, 1) == parent_of(path),
        ancestor_of(path, 0) == Some(path),
    decreases first,
{
    reveal_with_fuel(ancestor_of, 2);
    if first > 0 {
        match parent_of(path) {
            Some(dir) => {
                law_steps_add(dir, (first - 1) as nat, second);
                assert((first - 1) as nat + second == (first + second - 1) as nat);
            },
            None => {},
        }
    }
}

} // verus!
