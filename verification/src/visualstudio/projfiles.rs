//! The files of a project, sorted into those that are compiled and those
//! that are included.

use vstd::prelude::*;
use crate::files::{extension, extension_of};
use crate::text::{chars_of, compare, lemma_lex_irreflexive, lemma_lex_transitive, lex_lt, same_text, texts, Rank};

verus! {

/// Whether a file of this name is compiled: its extension is `c`, `cc` or `cpp`.
pub open spec fn is_compile_unit(path: Seq<char>) -> bool {
    let e = extension_of(path);
    e == "c"@ || e == "cc"@ || e == "cpp"@
}

/// Whether a file of this name is a header: its extension is `h` or `hpp`.
pub open spec fn is_header(path: Seq<char>) -> bool {
    let e = extension_of(path);
    e == "h"@ || e == "hpp"@
}

/// Whether the paths stand in strictly rising dictionary order. Such a list
/// holds no path twice.
pub open spec fn strictly_sorted(paths: Seq<String>) -> bool {
    forall|i: int, j: int| 0 <= i < j < paths.len() ==> lex_lt(#[trigger] paths[i]@, #[trigger] paths[j]@)
}

/// The paths that a list holds, as a set of texts.
pub open spec fn members(paths: Seq<String>) -> Set<Seq<char>> {
    Set::new(|s: Seq<char>| exists|i: int| 0 <= i < paths.len() && #[trigger] paths[i]@ == s)
}

/// The compile units and headers of a project.
#[derive(Debug, Clone, PartialEq, Eq)]
pub struct ProjFiles {
    pub compile: Vec<String>,
    pub headers: Vec<String>,
}

impl ProjFiles {
    /// Whether `self` is the classification of the files in `found`: each
    /// list is sorted without repetition and holds exactly the files of its
    /// kind.
    pub open spec fn classifies(self, found: Seq<String>) -> bool {
        &&& strictly_sorted(self.compile@)
        &&& strictly_sorted(self.headers@)
        &&& members(self.compile@) == members(found).filter(|s: Seq<char>| is_compile_unit(s))
        &&& members(self.headers@) == members(found).filter(|s: Seq<char>| is_header(s))
    }

    /// Classifies the regular files that a walk of the source roots found,
    /// each given by its canonical path. A file found more than once counts
    /// once; a file of another kind is dropped.
    pub fn scan(found: &Vec<String>) -> (files: ProjFiles)
        ensures
            files.classifies(found@),
    {
        let mut compile: Vec<String> = Vec::new();
        let mut headers: Vec<String> = Vec::new();
        let mut i: usize = 0;
        assert(members(found@.take(0)) =~= Set::empty());
        assert(members(compile@) =~= members(found@.take(0)).filter(|s: Seq<char>| is_compile_unit(s)));
        assert(members(headers@) =~= members(found@.take(0)).filter(|s: Seq<char>| is_header(s)));
        while i < found.len()
            invariant
                i <= found@.len(),
                strictly_sorted(compile@),
                strictly_sorted(headers@),
                members(compile@) == members(found@.take(i as int)).filter(
                    |s: Seq<char>| is_compile_unit(s),
                ),
                members(headers@) == members(found@.take(i as int)).filter(
                    |s: Seq<char>| is_header(s),
                ),
            decreases found@.len() - i,
        {
            let file = &found[i];
            let ext = extension(file.as_str());
            let e = ext.as_str();
            proof {
                lemma_members_take_next(found@, i as int);
            }
            if same_text(e, "cpp") || same_text(e, "c") || same_text(e, "cc") {
                insert_sorted(&mut compile, file.as_str());
                assert(members(compile@) =~= members(found@.take(i + 1)).filter(
                    |s: Seq<char>| is_compile_unit(s),
                ));
                assert(members(headers@) =~= members(found@.take(i + 1)).filter(
                    |s: Seq<char>| is_header(s),
                )) by {
                    lemma_kinds_disjoint(file@);
                }
            } else if same_text(e, "hpp") || same_text(e, "h") {
                insert_sorted(&mut headers, file.as_str());
                assert(members(headers@) =~= members(found@.take(i + 1)).filter(
                    |s: Seq<char>| is_header(s),
                ));
                assert(members(compile@) =~= members(found@.take(i + 1)).filter(
                    |s: Seq<char>| is_compile_unit(s),
                ));
            } else {
                assert(members(headers@) =~= members(found@.take(i + 1)).filter(
                    |s: Seq<char>| is_header(s),
                ));
                assert(members(compile@) =~= members(found@.take(i + 1)).filter(
                    |s: Seq<char>| is_compile_unit(s),
                ));
            }
            i += 1;
        }
        assert(found@.take(i as int) =~= found@);
        ProjFiles { compile, headers }
    }
}

/// No file is both a compile unit and a header.
pub proof fn lemma_kinds_disjoint(path: Seq<char>)
    ensures
        !(is_compile_unit(path) && is_header(path)),
{
    reveal_strlit("c");
    reveal_strlit("cc");
    reveal_strlit("cpp");
    reveal_strlit("h");
    reveal_strlit("hpp");
    let e = extension_of(path);
    if is_compile_unit(path) && is_header(path) {
        assert(e.len() > 0);
        assert(e[0] == 'c');
        assert(e[0] == 'h');
    }
}

/// No path is listed both as a compile unit and as a header.
pub proof fn lemma_lists_are_disjoint(files: ProjFiles, found: Seq<String>)
    requires
        files.classifies(found),
    ensures
        members(files.compile@).disjoint(members(files.headers@)),
{
    assert forall|s: Seq<char>|
        !(members(files.compile@).contains(s) && members(files.headers@).contains(s)) by {
        lemma_kinds_disjoint(s);
    }
}

/// One more path of a list adds that path to its members.
pub proof fn lemma_members_take_next(paths: Seq<String>, i: int)
    requires
        0 <= i < paths.len(),
    ensures
        members(paths.take(i + 1)) == members(paths.take(i)).insert(paths[i]@),
{
    let a = members(paths.take(i + 1));
    let b = members(paths.take(i)).insert(paths[i]@);
    assert forall|s: Seq<char>| a.contains(s) implies b.contains(s) by {
        let k = choose|k: int| 0 <= k < i + 1 && #[trigger] paths.take(i + 1)[k]@ == s;
        if k < i {
            assert(paths.take(i)[k]@ == s);
        }
    }
    assert forall|s: Seq<char>| b.contains(s) implies a.contains(s) by {
        if s == paths[i]@ {
            assert(paths.take(i + 1)[i]@ == s);
        } else {
            let k = choose|k: int| 0 <= k < i && #[trigger] paths.take(i)[k]@ == s;
            assert(paths.take(i + 1)[k]@ == s);
        }
    }
    assert(a =~= b);
}

/// Puts `item` at its place in a sorted list, unless the list holds it.
pub(crate) fn insert_sorted(list: &mut Vec<String>, item: &str)
    requires
        strictly_sorted(old(list)@),
    ensures
        strictly_sorted(final(list)@),
        members(final(list)@) == members(old(list)@).insert(item@),
{
    let key = chars_of(item);
    let mut pos: usize = 0;
    let mut placed = false;
    while pos < list.len() && !placed
        invariant
            pos <= list@.len(),
            *list == *old(list),
            strictly_sorted(list@),
            key@ == item@,
            forall|k: int| 0 <= k < pos ==> lex_lt(#[trigger] list@[k]@, key@),
            placed ==> pos < list@.len() && lex_lt(key@, list@[pos as int]@),
        decreases list@.len() - pos + if placed { 0int } else { 1int },
    {
        let other = chars_of(list[pos].as_str());
        match compare(&other, &key) {
            Rank::Before => {
                pos += 1;
            },
            Rank::Same => {
                assert(members(list@).contains(item@));
                assert(members(list@).insert(item@) =~= members(list@));
                return ;
            },
            Rank::After => {
                placed = true;
            },
        }
    }
    let ghost before = list@;
    list.insert(pos, item.to_owned());
    proof {
        let after = list@;
        assert forall|i: int, j: int| 0 <= i < j < after.len() implies lex_lt(
            #[trigger] after[i]@,
            #[trigger] after[j]@,
        ) by {
            if j < pos {
                assert(after[i] == before[i]);
                assert(after[j] == before[j]);
            } else if j == pos {
                assert(after[i] == before[i]);
            } else if i == pos {
                assert(after[j] == before[j - 1]);
                if j - 1 > pos {
                    lemma_lex_transitive(key@, before[pos as int]@, before[j - 1]@);
                }
            } else if i < pos {
                assert(after[i] == before[i]);
                assert(after[j] == before[j - 1]);
            } else {
                assert(after[i] == before[i - 1]);
                assert(after[j] == before[j - 1]);
            }
        }
        let a = members(after);
        let b = members(before).insert(item@);
        assert forall|s: Seq<char>| a.contains(s) implies b.contains(s) by {
            let k = choose|k: int| 0 <= k < after.len() && #[trigger] after[k]@ == s;
            if k < pos {
                assert(before[k]@ == s);
            } else if k > pos {
                assert(before[k - 1]@ == s);
            }
        }
        assert forall|s: Seq<char>| b.contains(s) implies a.contains(s) by {
            if s == item@ {
                assert(after[pos as int]@ == s);
            } else {
                let k = choose|k: int| 0 <= k < before.len() && #[trigger] before[k]@ == s;
                if k < pos {
                    assert(after[k]@ == s);
                } else {
                    assert(after[k + 1]@ == s);
                }
            }
        }
        assert(a =~= b);
    }
}

/// A sorted list is sorted in each of its parts, and its last path is
/// none of the others.
proof fn lemma_sorted_drop_last(list: Seq<String>)
    requires
        strictly_sorted(list),
        list.len() > 0,
    ensures
        strictly_sorted(list.drop_last()),
        !members(list.drop_last()).contains(list.last()@),
        members(list) == members(list.drop_last()).insert(list.last()@),
{
    let rest = list.drop_last();
    assert forall|i: int, j: int| 0 <= i < j < rest.len() implies lex_lt(
        #[trigger] rest[i]@,
        #[trigger] rest[j]@,
    ) by {
        assert(rest[i] == list[i]);
        assert(rest[j] == list[j]);
    }
    if members(rest).contains(list.last()@) {
        let i = choose|i: int| 0 <= i < rest.len() && #[trigger] rest[i]@ == list.last()@;
        assert(rest[i] == list[i]);
        assert(lex_lt(list[i]@, list[list.len() - 1]@));
        lemma_lex_irreflexive(list.last()@);
    }
    assert(list.take(list.len() - 1) =~= rest);
    assert(list.take(list.len() as int) =~= list);
    lemma_members_take_next(list, list.len() - 1);
}

/// The last path of a sorted list is the greatest.
proof fn lemma_last_is_greatest(list: Seq<String>, s: Seq<char>)
    requires
        strictly_sorted(list),
        list.len() > 0,
        members(list).contains(s),
    ensures
        s == list.last()@ || lex_lt(s, list.last()@),
{
    let i = choose|i: int| 0 <= i < list.len() && #[trigger] list[i]@ == s;
    if i < list.len() - 1 {
        assert(lex_lt(list[i]@, list[list.len() - 1]@));
    }
}

/// Two sorted lists that hold the same paths are the same list.
pub proof fn lemma_sorted_lists_agree(x: Seq<String>, y: Seq<String>)
    requires
        strictly_sorted(x),
        strictly_sorted(y),
        members(x) == members(y),
    ensures
        texts(x) == texts(y),
    decreases x.len(),
{
    if x.len() == 0 {
        if y.len() > 0 {
            assert(members(y).contains(y[0]@));
            let i = choose|i: int| 0 <= i < x.len() && #[trigger] x[i]@ == y[0]@;
        }
        assert(texts(x) =~= texts(y));
    } else {
        assert(members(x).contains(x[x.len() - 1]@));
        assert(y.len() > 0) by {
            if y.len() == 0 {
                let i = choose|i: int| 0 <= i < y.len() && #[trigger] y[i]@ == x.last()@;
            }
        }
        assert(members(y).contains(y[y.len() - 1]@));
        lemma_last_is_greatest(y, x.last()@);
        lemma_last_is_greatest(x, y.last()@);
        if x.last()@ != y.last()@ {
            lemma_lex_transitive(x.last()@, y.last()@, x.last()@);
            lemma_lex_irreflexive(x.last()@);
        }
        lemma_sorted_drop_last(x);
        lemma_sorted_drop_last(y);
        let a = members(x.drop_last());
        let b = members(y.drop_last());
        assert forall|s: Seq<char>| a.contains(s) <==> b.contains(s) by {
            if a.contains(s) {
                assert(members(y).contains(s));
            }
            if b.contains(s) {
                assert(members(x).contains(s));
            }
        }
        assert(a =~= b);
        lemma_sorted_lists_agree(x.drop_last(), y.drop_last());
        assert forall|i: int| 0 <= i < x.len() - 1 implies texts(x)[i] == texts(x.drop_last())[i] by {}
        assert(x.len() == y.len()) by {
            assert(texts(x.drop_last()).len() == texts(y.drop_last()).len());
        }
        assert forall|i: int| 0 <= i < x.len() implies texts(x)[i] == texts(y)[i] by {
            if i < x.len() - 1 {
                assert(texts(x.drop_last())[i] == texts(y.drop_last())[i]);
            }
        }
        assert(texts(x) =~= texts(y));
    }
}

/// Classifying the same files gives the same lists, in whatever order and
/// however often the files were found.
pub proof fn lemma_scan_ignores_order(a: Seq<String>, b: Seq<String>, x: ProjFiles, y: ProjFiles)
    requires
        members(a) == members(b),
        x.classifies(a),
        y.classifies(b),
    ensures
        texts(x.compile@) == texts(y.compile@),
        texts(x.headers@) == texts(y.headers@),
{
    lemma_sorted_lists_agree(x.compile@, y.compile@);
    lemma_sorted_lists_agree(x.headers@, y.headers@);
}

} // verus!
