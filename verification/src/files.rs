//! Paths as text. A path is a string whose components are separated by `/`;
//! nothing here touches the file system.

use vstd::prelude::*;
use crate::text::{chars_of, string_of};

verus! {

/// The index of the last `c` in `s`, or -1 where `s` holds none.
pub open spec fn last_index_of(s: Seq<char>, c: char) -> int
    decreases s.len(),
{
    if s.len() == 0 {
        -1
    } else if s.last() == c {
        s.len() - 1
    } else {
        last_index_of(s.drop_last(), c)
    }
}

/// `last_index_of` is -1 or names a place in `s` that holds `c`.
pub proof fn lemma_last_index_of(s: Seq<char>, c: char)
    ensures
        -1 <= last_index_of(s, c) < s.len(),
        last_index_of(s, c) >= 0 ==> s[last_index_of(s, c)] == c,
    decreases s.len(),
{
    if s.len() > 0 && s.last() != c {
        lemma_last_index_of(s.drop_last(), c);
    }
}

/// `base` with `appended` pushed onto it: an absolute `appended` replaces
/// `base`, anything else is joined to it by one separator.
pub open spec fn joined(base: Seq<char>, appended: Seq<char>) -> Seq<char> {
    if appended.len() > 0 && appended[0] == '/' {
        appended
    } else if base.len() == 0 || base.last() == '/' {
        base + appended
    } else {
        base + seq!['/'] + appended
    }
}

/// The last component of `path`: what follows its last separator.
pub open spec fn file_name_of(path: Seq<char>) -> Seq<char> {
    path.skip(last_index_of(path, '/') + 1)
}

/// The extension of `path`: what follows the last dot of its last
/// component, and nothing where that component has no dot or only a
/// leading one.
pub open spec fn extension_of(path: Seq<char>) -> Seq<char> {
    let name = file_name_of(path);
    let dot = last_index_of(name, '.');
    if dot <= 0 {
        Seq::empty()
    } else {
        name.skip(dot + 1)
    }
}

/// `path` without its last component and the separator before it.
pub open spec fn parent_of(path: Seq<char>) -> Seq<char> {
    let slash = last_index_of(path, '/');
    if slash < 0 {
        Seq::empty()
    } else {
        path.take(slash)
    }
}

/// Whether `path` is `root` or lies below it.
pub open spec fn is_within(path: Seq<char>, root: Seq<char>) -> bool {
    &&& root.len() <= path.len()
    &&& path.take(root.len() as int) == root
    &&& (path.len() == root.len() || (root.len() > 0 && root.last() == '/')
        || path[root.len() as int] == '/')
}

/// What is left of `path` below `root`, for a `path` within `root`.
pub open spec fn relative_to(path: Seq<char>, root: Seq<char>) -> Seq<char> {
    if path.len() == root.len() || (root.len() > 0 && root.last() == '/') {
        path.skip(root.len() as int)
    } else {
        path.skip(root.len() as int + 1)
    }
}

/// Finds the last `c` in `chars[start..end]`, counted from `start`.
pub(crate) fn find_last(chars: &Vec<char>, start: usize, end: usize, c: char) -> (at: Option<usize>)
    requires
        start <= end <= chars@.len(),
    ensures
        match at {
            Some(i) => i < end - start && i as int == last_index_of(
                chars@.subrange(start as int, end as int),
                c,
            ),
            None => last_index_of(chars@.subrange(start as int, end as int), c) == -1,
        },
{
    let ghost whole = chars@.subrange(start as int, end as int);
    let mut i: usize = end;
    assert(whole.take(end - start) =~= whole);
    while i > start
        invariant
            start <= i <= end <= chars@.len(),
            whole == chars@.subrange(start as int, end as int),
            last_index_of(whole, c) == last_index_of(whole.take(i - start), c),
        decreases i,
    {
        if chars[i - 1] == c {
            assert(whole.take(i - start).last() == c);
            return Some(i - 1 - start);
        }
        assert(whole.take(i - start).drop_last() =~= whole.take(i - 1 - start));
        i -= 1;
    }
    None
}

/// Pushes `appended` onto `path`, as a copy.
pub fn clone_push_path(path: &str, appended: &str) -> (out: String)
    ensures
        out@ == joined(path@, appended@),
{
    let base = chars_of(path);
    let tail = chars_of(appended);
    if tail.len() > 0 && tail[0] == '/' {
        appended.to_owned()
    } else if base.len() == 0 || base[base.len() - 1] == '/' {
        let mut out = path.to_owned();
        out.append(appended);
        out
    } else {
        let mut out = path.to_owned();
        out.push('/');
        out.append(appended);
        assert(path@.push('/') =~= path@ + seq!['/']);
        out
    }
}

/// The extension of `path`, empty where it has none.
pub fn extension(path: &str) -> (out: String)
    ensures
        out@ == extension_of(path@),
{
    let chars = chars_of(path);
    let n = chars.len();
    assert(chars@.subrange(0, n as int) =~= chars@);
    let start: usize = match find_last(&chars, 0, n, '/') {
        Some(i) => i + 1,
        None => 0,
    };
    assert(chars@.subrange(start as int, n as int) =~= file_name_of(path@));
    match find_last(&chars, start, n, '.') {
        Some(dot) => if dot == 0 {
            String::new()
        } else {
            assert(chars@.subrange(start + dot + 1, n as int) =~= file_name_of(path@).skip(
                dot + 1,
            ));
            string_of(&chars, start + dot + 1, n)
        },
        None => String::new(),
    }
}

/// `path` without its last component.
pub fn parent(path: &str) -> (out: String)
    ensures
        out@ == parent_of(path@),
{
    let chars = chars_of(path);
    let n = chars.len();
    assert(chars@.subrange(0, n as int) =~= chars@);
    match find_last(&chars, 0, n, '/') {
        Some(slash) => {
            assert(chars@.subrange(0, slash as int) =~= path@.take(slash as int));
            string_of(&chars, 0, slash)
        },
        None => String::new(),
    }
}

/// What is left of `path` below `root`, or nothing where `path` is not
/// within `root`.
pub fn strip_root(path: &str, root: &str) -> (out: Option<String>)
    ensures
        is_within(path@, root@) ==> out.is_some() && out.unwrap()@ == relative_to(path@, root@),
        !is_within(path@, root@) ==> out.is_none(),
{
    let p = chars_of(path);
    let r = chars_of(root);
    let n = p.len();
    let k = r.len();
    if k > n {
        return None;
    }
    let mut i: usize = 0;
    while i < k
        invariant
            i <= k <= n,
            n == p@.len(),
            k == r@.len(),
            p@ == path@,
            r@ == root@,
            p@.take(i as int) == r@.take(i as int),
        decreases k - i,
    {
        if p[i] != r[i] {
            assert(p@.take(k as int)[i as int] == p@[i as int]);
            return None;
        }
        assert(p@.take(i + 1) =~= p@.take(i as int).push(p@[i as int]));
        assert(r@.take(i + 1) =~= r@.take(i as int).push(r@[i as int]));
        i += 1;
    }
    assert(r@.take(k as int) =~= r@);
    if n == k || (k > 0 && r[k - 1] == '/') {
        assert(p@.subrange(k as int, n as int) =~= p@.skip(k as int));
        Some(string_of(&p, k, n))
    } else if p[k] == '/' {
        assert(p@.subrange(k + 1, n as int) =~= p@.skip(k + 1));
        Some(string_of(&p, k + 1, n))
    } else {
        None
    }
}

/// `path` with every `separator` written as `/`.
pub open spec fn slashed(path: Seq<char>, separator: char) -> Seq<char> {
    Seq::new(
        path.len(),
        |i: int|
            if path[i] == separator {
                '/'
            } else {
                path[i]
            },
    )
}

/// Writes a path that uses the platform's `separator` with `/`, the only
/// separator that the functions on paths know.
pub fn to_slashes(path: &str, separator: char) -> (out: String)
    ensures
        out@ == slashed(path@, separator),
{
    let chars = chars_of(path);
    let mut out = String::new();
    let mut i: usize = 0;
    while i < chars.len()
        invariant
            i <= chars@.len(),
            chars@ == path@,
            out@ == slashed(path@, separator).take(i as int),
        decreases chars@.len() - i,
    {
        if chars[i] == separator {
            out.push('/');
        } else {
            out.push(chars[i]);
        }
        assert(out@ =~= slashed(path@, separator).take(i + 1));
        i += 1;
    }
    assert(slashed(path@, separator).take(i as int) =~= slashed(path@, separator));
    out
}

/// A path that does not hold the separator is left as it is, and so is
/// every path where the separator is `/`.
pub proof fn lemma_slashed_unchanged(path: Seq<char>, separator: char)
    requires
        separator == '/' || forall|i: int| 0 <= i < path.len() ==> path[i] != separator,
    ensures
        slashed(path, separator) == path,
{
    assert(slashed(path, separator) =~= path);
}

} // verus!
