//! Parsing of the oracle-selection string: an algorithm name, optionally
//! followed by comma-separated parameters, as in `"Scale,0.5,64"`.

use vstd::prelude::*;
use vstd::string::StrSliceExecFns;

verus! {

/// A parsed oracle selection. Every selection is served by the library's
/// verified exact-distance oracle; the variants record which algorithm the
/// caller asked for, and `Unrecognized` makes the fallback onto the default
/// algorithm explicit instead of silent.
pub enum Selector {
    /// The sequential splay-tree variant.
    Olken,
    /// The explicit-stack variant.
    Stack,
    /// The vector-scan variant.
    VecScan,
    /// The decayed-scale-tree variant; the raw parameter text (decay factor
    /// and bucket threshold) is kept as written.
    Scale(String),
    /// An unrecognized selection, answered by the default algorithm.
    Unrecognized,
}

/// Index of the first comma, or the length when there is none.
pub open spec fn first_comma(s: Seq<char>) -> int
    decreases s.len(),
{
    if s.len() == 0 {
        0
    } else if s[0] == ',' {
        0
    } else {
        1 + first_comma(s.drop_first())
    }
}

/// What a selection string parses to.
pub open spec fn sel_matches(sel: Selector, s: Seq<char>) -> bool {
    let cut = first_comma(s);
    let name = s.take(cut);
    if name == "Olken"@ {
        sel is Olken
    } else if name == "Stack"@ {
        sel is Stack
    } else if name == "Vec"@ {
        sel is VecScan
    } else if name == "Scale"@ {
        sel matches Selector::Scale(params) && params@ == (if cut < s.len() {
            s.skip(cut + 1)
        } else {
            Seq::<char>::empty()
        })
    } else {
        sel is Unrecognized
    }
}

proof fn lemma_first_comma_at(s: Seq<char>, i: int)
    requires
        0 <= i < s.len(),
        s[i] == ',',
        forall|m: int| 0 <= m < i ==> s[m] != ',',
    ensures
        first_comma(s) == i,
    decreases i,
{
    if i > 0 {
        let sp = s.drop_first();
        assert(forall|m: int| 0 <= m < sp.len() ==> sp[m] == s[m + 1]);
        lemma_first_comma_at(sp, i - 1);
    }
}

proof fn lemma_first_comma_absent(s: Seq<char>)
    requires
        forall|m: int| 0 <= m < s.len() ==> s[m] != ',',
    ensures
        first_comma(s) == s.len(),
    decreases s.len(),
{
    if s.len() > 0 {
        let sp = s.drop_first();
        assert(forall|m: int| 0 <= m < sp.len() ==> sp[m] == s[m + 1]);
        lemma_first_comma_absent(sp);
    }
}

/// Position of the first comma, or the length when there is none.
fn find_comma(s: &str) -> (r: usize)
    ensures
        r as int == first_comma(s@),
        r <= s@.len(),
{
    let n = s.unicode_len();
    let mut i: usize = 0;
    while i < n
        invariant
            0 <= i <= n,
            n == s@.len(),
            forall|m: int| 0 <= m < i ==> s@[m] != ',',
        decreases n - i,
    {
        if s.get_char(i) == ',' {
            proof {
                lemma_first_comma_at(s@, i as int);
            }
            return i;
        }
        i = i + 1;
    }
    proof {
        lemma_first_comma_absent(s@);
    }
    n
}

/// Whether the first `end` characters of `s` are exactly `pat`.
fn prefix_is(s: &str, end: usize, pat: &str) -> (r: bool)
    requires
        end <= s@.len(),
    ensures
        r == (s@.take(end as int) == pat@),
{
    let n = pat.unicode_len();
    if n != end {
        proof {
            assert(s@.take(end as int).len() == end);
        }
        return false;
    }
    let mut i: usize = 0;
    while i < end
        invariant
            0 <= i <= end,
            end == pat@.len(),
            end <= s@.len(),
            forall|m: int| 0 <= m < i ==> s@[m] == pat@[m],
        decreases end - i,
    {
        if s.get_char(i) != pat.get_char(i) {
            proof {
                assert(s@.take(end as int)[i as int] != pat@[i as int]);
            }
            return false;
        }
        i = i + 1;
    }
    proof {
        assert(s@.take(end as int) =~= pat@);
    }
    true
}

/// Parse an oracle-selection string: the text before the first comma picks
/// the algorithm, and for `Scale` the text after it is kept as the raw
/// parameter list. Unknown names parse to `Unrecognized`.
pub fn parse_selector(lru_type: &str) -> (sel: Selector)
    ensures
        sel_matches(sel, lru_type@),
{
    let cut = find_comma(lru_type);
    if prefix_is(lru_type, cut, "Olken") {
        Selector::Olken
    } else if prefix_is(lru_type, cut, "Stack") {
        Selector::Stack
    } else if prefix_is(lru_type, cut, "Vec") {
        Selector::VecScan
    } else if prefix_is(lru_type, cut, "Scale") {
        let n = lru_type.unicode_len();
        if cut < n {
            let rest = lru_type.substring_char(cut + 1, n);
            let params = rest.to_owned();
            proof {
                assert(params@ =~= lru_type@.skip(cut as int + 1));
            }
            Selector::Scale(params)
        } else {
            let params = "".to_owned();
            proof {
                reveal_strlit("");
                assert(params@ =~= Seq::<char>::empty());
            }
            Selector::Scale(params)
        }
    } else {
        Selector::Unrecognized
    }
}

} // verus!
