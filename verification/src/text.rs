//! Strings as sequences of characters: the few operations on them that the
//! rest of the crate is built from.

use vstd::prelude::*;

verus! {

/// `String::push` appends one character.
pub assume_specification[ String::push ](s: &mut String, c: char)
    ensures
        final(s)@ == old(s)@.push(c),
;

/// The texts of a list of strings.
pub open spec fn texts(list: Seq<String>) -> Seq<Seq<char>> {
    Seq::new(list.len(), |i: int| list[i]@)
}

/// The characters of `s`, in order.
pub fn chars_of(s: &str) -> (out: Vec<char>)
    ensures
        out@ == s@,
{
    let mut out: Vec<char> = Vec::new();
    for c in it: s.chars()
        invariant
            it.seq() == s@,
            out@ == it.seq().take(it.index() as int),
    {
        out.push(c);
        assert(out@ =~= it.seq().take(it.index() + 1));
    }
    assert(s@.take(s@.len() as int) =~= s@);
    out
}

/// The string made of the characters `chars[from..to]`.
pub(crate) fn string_of(chars: &Vec<char>, from: usize, to: usize) -> (out: String)
    requires
        from <= to <= chars@.len(),
    ensures
        out@ == chars@.subrange(from as int, to as int),
{
    let mut out = String::new();
    let mut i: usize = from;
    while i < to
        invariant
            from <= i <= to <= chars@.len(),
            out@ == chars@.subrange(from as int, i as int),
        decreases to - i,
    {
        out.push(chars[i]);
        assert(out@ =~= chars@.subrange(from as int, i + 1));
        i += 1;
    }
    out
}

/// Whether `a` comes strictly before `b` in dictionary order, characters
/// compared by code point.
pub open spec fn lex_lt(a: Seq<char>, b: Seq<char>) -> bool
    decreases a.len(),
{
    if b.len() == 0 {
        false
    } else if a.len() == 0 {
        true
    } else if a[0] != b[0] {
        (a[0] as int) < (b[0] as int)
    } else {
        lex_lt(a.skip(1), b.skip(1))
    }
}

/// How one string stands to another in dictionary order.
#[derive(Clone, Copy, Debug, PartialEq, Eq, Structural)]
pub enum Rank {
    Before,
    Same,
    After,
}

/// Dictionary order does not depend on a prefix that both strings share.
pub proof fn lemma_lex_skip_common(a: Seq<char>, b: Seq<char>, k: int)
    requires
        0 <= k <= a.len(),
        k <= b.len(),
        a.take(k) == b.take(k),
    ensures
        lex_lt(a, b) == lex_lt(a.skip(k), b.skip(k)),
        lex_lt(b, a) == lex_lt(b.skip(k), a.skip(k)),
    decreases k,
{
    if k == 0 {
        assert(a.skip(0) =~= a);
        assert(b.skip(0) =~= b);
    } else {
        assert(a[0] == a.take(k)[0]);
        assert(b[0] == b.take(k)[0]);
        assert(a.skip(1).take(k - 1) =~= a.take(k).skip(1));
        assert(b.skip(1).take(k - 1) =~= b.take(k).skip(1));
        lemma_lex_skip_common(a.skip(1), b.skip(1), k - 1);
        assert(a.skip(1).skip(k - 1) =~= a.skip(k));
        assert(b.skip(1).skip(k - 1) =~= b.skip(k));
    }
}

/// No string comes before itself.
pub proof fn lemma_lex_irreflexive(a: Seq<char>)
    ensures
        !lex_lt(a, a),
    decreases a.len(),
{
    if a.len() > 0 {
        lemma_lex_irreflexive(a.skip(1));
    }
}

/// Of two different strings exactly one comes before the other.
pub proof fn lemma_lex_total(a: Seq<char>, b: Seq<char>)
    ensures
        a != b ==> (lex_lt(a, b) != lex_lt(b, a)),
        a == b ==> !lex_lt(a, b),
    decreases a.len(),
{
    if a == b {
        lemma_lex_irreflexive(a);
    } else if a.len() > 0 && b.len() > 0 && a[0] == b[0] {
        lemma_lex_total(a.skip(1), b.skip(1));
        if a.skip(1) == b.skip(1) {
            assert(a =~= seq![a[0]] + a.skip(1));
            assert(b =~= seq![b[0]] + b.skip(1));
        }
    } else if a.len() == 0 && b.len() == 0 {
        assert(a =~= b);
    }
}

/// Dictionary order is transitive.
pub proof fn lemma_lex_transitive(a: Seq<char>, b: Seq<char>, c: Seq<char>)
    requires
        lex_lt(a, b),
        lex_lt(b, c),
    ensures
        lex_lt(a, c),
    decreases a.len(),
{
    if a.len() > 0 && a[0] == b[0] && b[0] == c[0] {
        lemma_lex_transitive(a.skip(1), b.skip(1), c.skip(1));
    }
}

/// Compares two strings in dictionary order.
pub fn compare(a: &Vec<char>, b: &Vec<char>) -> (r: Rank)
    ensures
        r == Rank::Before <==> lex_lt(a@, b@),
        r == Rank::Same <==> a@ == b@,
        r == Rank::After <==> lex_lt(b@, a@),
{
    let mut i: usize = 0;
    while i < a.len() && i < b.len() && a[i] == b[i]
        invariant
            i <= a@.len(),
            i <= b@.len(),
            a@.take(i as int) == b@.take(i as int),
        decreases a@.len() - i,
    {
        assert(a@.take(i + 1) =~= a@.take(i as int).push(a@[i as int]));
        assert(b@.take(i + 1) =~= b@.take(i as int).push(b@[i as int]));
        i += 1;
    }
    proof {
        lemma_lex_skip_common(a@, b@, i as int);
        lemma_lex_total(a@, b@);
        if i == a@.len() && i == b@.len() {
            assert(a@.take(i as int) =~= a@);
            assert(b@.take(i as int) =~= b@);
        }
    }
    if i == a.len() {
        if i == b.len() {
            Rank::Same
        } else {
            Rank::Before
        }
    } else if i == b.len() {
        Rank::After
    } else if a[i] < b[i] {
        assert(a@.skip(i as int)[0] == a@[i as int]);
        assert(b@.skip(i as int)[0] == b@[i as int]);
        Rank::Before
    } else {
        assert(a@.skip(i as int)[0] == a@[i as int]);
        assert(b@.skip(i as int)[0] == b@[i as int]);
        Rank::After
    }
}

/// A copy of a list of strings.
pub fn copy_strings(list: &Vec<String>) -> (out: Vec<String>)
    ensures
        out@ == list@,
{
    let mut out: Vec<String> = Vec::new();
    let mut i: usize = 0;
    while i < list.len()
        invariant
            i <= list@.len(),
            out@ == list@.take(i as int),
        decreases list@.len() - i,
    {
        out.push(list[i].clone());
        assert(out@ =~= list@.take(i + 1));
        i += 1;
    }
    assert(list@.take(i as int) =~= list@);
    out
}

/// Whether a list holds this text.
pub fn contains_text(list: &Vec<String>, text: &str) -> (r: bool)
    ensures
        r == texts(list@).contains(text@),
{
    let mut i: usize = 0;
    while i < list.len()
        invariant
            i <= list@.len(),
            forall|k: int| 0 <= k < i ==> texts(list@)[k] != text@,
        decreases list@.len() - i,
    {
        if same_text(list[i].as_str(), text) {
            assert(texts(list@)[i as int] == text@);
            return true;
        }
        i += 1;
    }
    false
}

/// `list` followed by those texts of `more` that it does not hold yet,
/// none of them twice.
pub open spec fn united(list: Seq<Seq<char>>, more: Seq<Seq<char>>) -> Seq<Seq<char>>
    decreases more.len(),
{
    if more.len() == 0 {
        list
    } else {
        let base = united(list, more.drop_last());
        if base.contains(more.last()) {
            base
        } else {
            base.push(more.last())
        }
    }
}

/// Uniting keeps a list free of repetition, keeps what it held in place,
/// and adds exactly what the other list holds.
pub proof fn lemma_united(list: Seq<Seq<char>>, more: Seq<Seq<char>>)
    requires
        list.no_duplicates(),
    ensures
        united(list, more).no_duplicates(),
        list.len() <= united(list, more).len(),
        united(list, more).take(list.len() as int) == list,
        forall|s: Seq<char>|
            united(list, more).contains(s) <==> (list.contains(s) || more.contains(s)),
    decreases more.len(),
{
    if more.len() == 0 {
        assert(list.take(list.len() as int) =~= list);
    } else {
        let rest = more.drop_last();
        lemma_united(list, rest);
        let base = united(list, rest);
        let all = united(list, more);
        assert(all.take(list.len() as int) =~= base.take(list.len() as int));
        assert forall|s: Seq<char>| all.contains(s) <==> (list.contains(s) || more.contains(s)) by {
            assert(base.contains(s) <==> (list.contains(s) || rest.contains(s)));
            if rest.contains(s) {
                let k = choose|k: int| 0 <= k < rest.len() && rest[k] == s;
                assert(more[k] == s);
            }
            if more.contains(s) && s != more.last() {
                let k = choose|k: int| 0 <= k < more.len() && more[k] == s;
                assert(rest[k] == s);
            }
            if s == more.last() {
                assert(more[more.len() - 1] == s);
            }
            if base.contains(more.last()) {
            } else {
                assert(all =~= base.push(more.last()));
                if all.contains(s) {
                    let k = choose|k: int| 0 <= k < all.len() && all[k] == s;
                    if k < base.len() {
                        assert(base[k] == s);
                    }
                }
                if base.contains(s) {
                    let k = choose|k: int| 0 <= k < base.len() && base[k] == s;
                    assert(all[k] == s);
                }
                if s == more.last() {
                    assert(all[base.len() as int] == s);
                }
            }
        }
    }
}

/// Appends copies of those texts of `more` that `list` does not hold yet.
pub fn append_new(list: &mut Vec<String>, more: &Vec<String>)
    ensures
        texts(final(list)@) == united(texts(old(list)@), texts(more@)),
{
    let mut i: usize = 0;
    assert(texts(more@.take(0)) =~= Seq::empty());
    while i < more.len()
        invariant
            i <= more@.len(),
            texts(list@) == united(texts(old(list)@), texts(more@.take(i as int))),
        decreases more@.len() - i,
    {
        assert(texts(more@.take(i + 1)).drop_last() =~= texts(more@.take(i as int)));
        assert(texts(more@.take(i + 1)).last() == more@[i as int]@);
        if !contains_text(list, more[i].as_str()) {
            let ghost before = list@;
            list.push(more[i].clone());
            assert(texts(list@) =~= texts(before).push(more@[i as int]@));
        }
        i += 1;
    }
    assert(more@.take(i as int) =~= more@);
}

/// Whether two strings hold the same characters.
pub fn same_text(a: &str, b: &str) -> (r: bool)
    ensures
        r == (a@ == b@),
{
    let x = chars_of(a);
    let y = chars_of(b);
    compare(&x, &y) == Rank::Same
}

} // verus!
