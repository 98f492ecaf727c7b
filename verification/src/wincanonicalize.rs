//! The textual half of path resolution: a resolved path as Windows reports
//! it, brought to the form in which paths are compared.

use vstd::prelude::*;
use crate::text::chars_of;

verus! {

/// Whether `s` begins with the verbatim marker `\\?\`.
pub open spec fn starts_verbatim(s: Seq<char>) -> bool {
    s.len() >= 4 && s[0] == '\\' && s[1] == '\\' && s[2] == '?' && s[3] == '\\'
}

/// `s` with every verbatim marker taken out, read from the left.
pub open spec fn without_verbatim(s: Seq<char>) -> Seq<char>
    decreases s.len(),
{
    if s.len() == 0 {
        s
    } else if starts_verbatim(s) {
        without_verbatim(s.skip(4))
    } else {
        seq![s[0]] + without_verbatim(s.skip(1))
    }
}

/// Removes the verbatim marker `\\?\` from a resolved path, wherever it
/// stands. The caller resolves links and relative parts first.
pub fn wincanonicalize(value: &str) -> (canonical: String)
    ensures
        canonical@ == without_verbatim(value@),
{
    let chars = chars_of(value);
    let n = chars.len();
    let mut out = String::new();
    let mut i: usize = 0;
    assert(chars@.skip(0) =~= chars@);
    while i < n
        invariant
            i <= n,
            n == chars@.len(),
            out@ + without_verbatim(chars@.skip(i as int)) == without_verbatim(chars@),
        decreases n - i,
    {
        let ghost rest = chars@.skip(i as int);
        if n - i >= 4 && chars[i] == '\\' && chars[i + 1] == '\\' && chars[i + 2] == '?' && chars[i
            + 3] == '\\' {
            assert(starts_verbatim(rest));
            assert(rest.skip(4) =~= chars@.skip(i + 4));
            i += 4;
        } else {
            assert(!starts_verbatim(rest));
            assert(rest.skip(1) =~= chars@.skip(i + 1));
            let ghost before = out@;
            out.push(chars[i]);
            assert(out@ + without_verbatim(chars@.skip(i + 1)) =~= before + (seq![rest[0]]
                + without_verbatim(rest.skip(1))));
            i += 1;
        }
    }
    assert(out@ + without_verbatim(chars@.skip(n as int)) =~= out@);
    out
}

/// A path that holds no backslash is left as it is.
pub proof fn lemma_plain_path_unchanged(s: Seq<char>)
    requires
        forall|i: int| 0 <= i < s.len() ==> s[i] != '\\',
    ensures
        without_verbatim(s) == s,
    decreases s.len(),
{
    if s.len() > 0 {
        lemma_plain_path_unchanged(s.skip(1));
        assert(seq![s[0]] + s.skip(1) =~= s);
    }
}

} // verus!
